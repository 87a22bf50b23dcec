use vstd::prelude::*;
use vstd::arithmetic::power2::{pow2, lemma_pow2_unfold, lemma_pow2_pos, lemma2_to64};
use vstd::arithmetic::div_mod::lemma_div_denominator;
use bit_vec::BitVec;
use std::collections::HashMap;

verus! {

// ----- the outside bit vector -----

#[verifier::external_type_specification]
#[verifier::external_body]
#[verifier::reject_recursive_types(B)]
pub struct ExBitVec<B>(BitVec<B>);

/// The bits that a `BitVec` holds, first pushed first.
pub uninterp spec fn bitvec_bits(bv: BitVec) -> Seq<bool>;

/// Bit `i` of `bits` as 0 or 1; 0 past the end.
pub open spec fn bit_or_zero(bits: Seq<bool>, i: int) -> int {
    if 0 <= i < bits.len() && bits[i] {
        1
    } else {
        0
    }
}

/// Byte `j` of `bits` packed eight to a byte, the first bit in the high-order position.
pub open spec fn byte_of(bits: Seq<bool>, j: int) -> u8 {
    (128 * bit_or_zero(bits, 8 * j) + 64 * bit_or_zero(bits, 8 * j + 1) + 32 * bit_or_zero(
        bits,
        8 * j + 2,
    ) + 16 * bit_or_zero(bits, 8 * j + 3) + 8 * bit_or_zero(bits, 8 * j + 4) + 4 * bit_or_zero(
        bits,
        8 * j + 5,
    ) + 2 * bit_or_zero(bits, 8 * j + 6) + bit_or_zero(bits, 8 * j + 7)) as u8
}

/// `bits` packed into bytes, first bit highest; a last partial byte is filled with zeros.
pub open spec fn bits_to_bytes(bits: Seq<bool>) -> Seq<u8> {
    let len = bits.len() / 8 + if bits.len() % 8 == 0 {
        0nat
    } else {
        1nat
    };
    Seq::new(len, |j: int| byte_of(bits, j))
}

proof fn lemma_byte_bits(b0: u8, b1: u8, b2: u8, b3: u8, b4: u8, b5: u8, b6: u8, b7: u8, x: u8)
    by (bit_vector)
    requires
        b0 <= 1 && b1 <= 1 && b2 <= 1 && b3 <= 1 && b4 <= 1 && b5 <= 1 && b6 <= 1 && b7 <= 1,
        x == 128 * b0 + 64 * b1 + 32 * b2 + 16 * b3 + 8 * b4 + 4 * b5 + 2 * b6 + b7,
    ensures
        (x >> 7u8) & 1 == b0,
        (x >> 6u8) & 1 == b1,
        (x >> 5u8) & 1 == b2,
        (x >> 4u8) & 1 == b3,
        (x >> 3u8) & 1 == b4,
        (x >> 2u8) & 1 == b5,
        (x >> 1u8) & 1 == b6,
        (x >> 0u8) & 1 == b7,
{
}

/// Packing keeps every bit: there are `ceil(len / 8)` bytes, and bit `7 - k` of byte `j`
/// (counting from the least significant) is bit `8 * j + k` of the input, or clear past
/// its end.
pub proof fn lemma_bits_to_bytes_bit(bits: Seq<bool>, j: int, k: u8)
    requires
        0 <= j < bits_to_bytes(bits).len(),
        k < 8,
    ensures
        bits_to_bytes(bits).len() == (bits.len() + 7) / 8,
        ((bits_to_bytes(bits)[j] >> ((7 - k) as u8)) & 1 == 1) == (8 * j + k < bits.len()
            && bits[8 * j + k]),
{
    let b0 = bit_or_zero(bits, 8 * j) as u8;
    let b1 = bit_or_zero(bits, 8 * j + 1) as u8;
    let b2 = bit_or_zero(bits, 8 * j + 2) as u8;
    let b3 = bit_or_zero(bits, 8 * j + 3) as u8;
    let b4 = bit_or_zero(bits, 8 * j + 4) as u8;
    let b5 = bit_or_zero(bits, 8 * j + 5) as u8;
    let b6 = bit_or_zero(bits, 8 * j + 6) as u8;
    let b7 = bit_or_zero(bits, 8 * j + 7) as u8;
    let x = bits_to_bytes(bits)[j];
    assert(x == byte_of(bits, j));
    lemma_byte_bits(b0, b1, b2, b3, b4, b5, b6, b7, x);
}

/// `BitVec::new`: an empty bit vector.
#[verifier::external_body]
fn bitvec_new() -> (bv: BitVec)
    ensures
        bitvec_bits(bv) == Seq::<bool>::empty(),
{
    BitVec::new()
}

/// `BitVec::push`: appends `elem` after the bits already held. The crate panics only when
/// the length would pass `usize::MAX`, which `requires` leaves out.
#[verifier::external_body]
fn bitvec_push(bv: &mut BitVec, elem: bool)
    requires
        bitvec_bits(*old(bv)).len() < usize::MAX,
    ensures
        bitvec_bits(*final(bv)) == bitvec_bits(*old(bv)).push(elem),
{
    bv.push(elem)
}

/// `BitVec::to_bytes`: the bits packed eight to a byte, first bit in the high-order
/// position, the last byte padded with zeros.
#[verifier::external_body]
fn bitvec_to_bytes(bv: &BitVec) -> (bytes: Vec<u8>)
    ensures
        bytes@ == bits_to_bytes(bitvec_bits(*bv)),
{
    bv.to_bytes()
}

// ----- binary digits -----

/// The binary digits of `v`, most significant first, without leading zeros (none for 0).
pub open spec fn binary_digits(v: nat) -> Seq<bool>
    decreases v,
{
    if v == 0 {
        Seq::empty()
    } else {
        binary_digits(v / 2).push(v % 2 == 1)
    }
}

/// The number that a sequence of binary digits, most significant first, stands for.
pub open spec fn digits_value(bits: Seq<bool>) -> nat
    decreases bits.len(),
{
    if bits.len() == 0 {
        0
    } else {
        2 * digits_value(bits.drop_last()) + if bits.last() {
            1nat
        } else {
            0nat
        }
    }
}

/// The binary digits of `value`, most significant first, without leading zeros.
pub fn u32_to_bool(value: u32) -> (result: Vec<bool>)
    requires
        value <= 0x8000_0000u32,
    ensures
        result@ == binary_digits(value as nat),
{
    let mut result: Vec<bool> = Vec::new();
    let mut v: u32 = value;
    while v > 0
        invariant
            binary_digits(value as nat) == binary_digits(v as nat) + result@,
        decreases v,
    {
        let bit = v % 2 == 1;
        let ghost before = result@;
        result.insert(0, bit);
        assert(binary_digits(v as nat) == binary_digits((v / 2) as nat).push(bit));
        assert(binary_digits(v as nat) + before =~= binary_digits((v / 2) as nat) + result@);
        v = v / 2;
    }
    assert(binary_digits(0) + result@ =~= result@);
    result
}

/// The digits read back give the number: `binary_digits` is the binary representation.
pub proof fn lemma_binary_digits_value(v: nat)
    ensures
        digits_value(binary_digits(v)) == v,
    decreases v,
{
    if v > 0 {
        lemma_binary_digits_value(v / 2);
        assert(binary_digits(v).drop_last() =~= binary_digits(v / 2));
    }
}

/// A positive number's digits start with a one (no leading zeros).
pub proof fn lemma_binary_digits_leading_one(v: nat)
    requires
        v > 0,
    ensures
        binary_digits(v).len() > 0,
        binary_digits(v)[0],
    decreases v,
{
    let prefix = binary_digits(v / 2);
    assert(binary_digits(v) == prefix.push(v % 2 == 1));
    if v / 2 > 0 {
        lemma_binary_digits_leading_one(v / 2);
        assert(binary_digits(v)[0] == prefix[0]);
    } else {
        assert(prefix.len() == 0);
        assert(v % 2 == 1);
    }
}

/// Digit `j` of `v`, counted from the most significant, is bit `len - 1 - j` of `v`: it is
/// set exactly when `v / 2^(len - 1 - j)` is odd.
pub proof fn lemma_binary_digit_at(v: nat, j: int)
    requires
        0 <= j < binary_digits(v).len(),
    ensures
        binary_digits(v)[j] == ((v / pow2((binary_digits(v).len() - 1 - j) as nat)) % 2 == 1),
    decreases v,
{
    let len = binary_digits(v).len();
    let prev = binary_digits(v / 2);
    assert(v > 0);
    assert(binary_digits(v) == prev.push(v % 2 == 1));
    if j == len - 1 {
        lemma2_to64();
        assert(v / pow2(0) == v);
    } else {
        lemma_binary_digit_at(v / 2, j);
        let k = (prev.len() - 1 - j) as nat;
        assert((len - 1 - j) as nat == k + 1);
        lemma_pow2_unfold(k + 1);
        lemma_pow2_pos(k);
        lemma_div_denominator(v as int, 2, pow2(k) as int);
        assert(binary_digits(v)[j] == prev[j]);
    }
}

/// A number below `2^k` has at most `k` digits.
pub proof fn lemma_binary_digits_len(v: nat, k: nat)
    requires
        v < pow2(k),
    ensures
        binary_digits(v).len() <= k,
    decreases k,
{
    if v > 0 {
        if k == 0 {
            assert(pow2(0) == 1) by {
                lemma2_to64();
            }
        } else {
            lemma_pow2_unfold(k);
            lemma_binary_digits_len(v / 2, (k - 1) as nat);
        }
    }
}

proof fn lemma_u32_digits_len(v: u32)
    ensures
        binary_digits(v as nat).len() <= 32,
{
    lemma2_to64();
    lemma_binary_digits_len(v as nat, 32);
}

// ----- residual bits -----

/// How many elements of `data` are not zero.
pub open spec fn nonzero_count(data: Seq<u32>) -> nat
    decreases data.len(),
{
    if data.len() == 0 {
        0
    } else {
        nonzero_count(data.drop_last()) + if data.last() != 0 {
            1nat
        } else {
            0nat
        }
    }
}

/// The binary digits of `d` after the first `skip` ones; none when no digit is left.
pub open spec fn digits_after(d: u32, skip: int) -> Seq<bool> {
    let digits = binary_digits(d as nat);
    if skip < digits.len() {
        digits.subrange(skip, digits.len() as int)
    } else {
        Seq::empty()
    }
}

/// The residual bits of `data`: for the `k`-th nonzero element `d`, in order, the digits of
/// `d` after its first `foc[k] + 1`; zeros contribute nothing.
pub open spec fn residual_stream(data: Seq<u32>, foc: Seq<u8>) -> Seq<bool>
    decreases data.len(),
{
    if data.len() == 0 {
        Seq::empty()
    } else {
        let prev = data.drop_last();
        let d = data.last();
        if d == 0 {
            residual_stream(prev, foc)
        } else {
            residual_stream(prev, foc) + digits_after(d, foc[nonzero_count(prev) as int] + 1)
        }
    }
}

/// The inputs on which `pack_residuals` computes: one count per nonzero element, each
/// below 255, nonzero elements at most `2^31`, and a length that keeps the bit count
/// within `usize`.
pub open spec fn pack_defined(data: Seq<u32>, foc: Seq<u8>) -> bool {
    &&& nonzero_count(data) <= foc.len()
    &&& forall|j: int| 0 <= j < nonzero_count(data) ==> #[trigger] foc[j] < 255
    &&& forall|i: int| 0 <= i < data.len() && #[trigger] data[i] != 0 ==> data[i] <= 0x8000_0000u32
    &&& data.len() <= usize::MAX / 64
}

proof fn lemma_nonzero_count_prefix(data: Seq<u32>, i: int)
    requires
        0 <= i <= data.len(),
    ensures
        nonzero_count(data.take(i)) <= nonzero_count(data),
    decreases data.len(),
{
    if i < data.len() {
        lemma_nonzero_count_prefix(data.drop_last(), i);
        assert(data.drop_last().take(i) =~= data.take(i));
    } else {
        assert(data.take(i) =~= data);
    }
}

proof fn lemma_residual_stream_len(data: Seq<u32>, foc: Seq<u8>)
    ensures
        residual_stream(data, foc).len() <= 32 * data.len(),
    decreases data.len(),
{
    if data.len() > 0 {
        lemma_residual_stream_len(data.drop_last(), foc);
        lemma_u32_digits_len(data.last());
    }
}

/// `nonzero_count` is the number of elements that remain when the zeros are filtered out.
pub proof fn lemma_nonzero_count_is_filter_len(data: Seq<u32>)
    ensures
        nonzero_count(data) == data.filter(|x: u32| x != 0).len(),
    decreases data.len(),
{
    reveal(Seq::filter);
    if data.len() > 0 {
        lemma_nonzero_count_is_filter_len(data.drop_last());
    }
}

/// Appending an element to the data appends to the residual bits: nothing for a zero;
/// for a nonzero `d`, the `k`-th nonzero element with count `f = foc[k]`, exactly the
/// binary digits of `d` that follow its first `f + 1`.
pub proof fn lemma_residual_stream_push(data: Seq<u32>, foc: Seq<u8>, d: u32)
    ensures
        d == 0 ==> residual_stream(data.push(d), foc) == residual_stream(data, foc),
        d != 0 ==> ({
            let before = residual_stream(data, foc);
            let after = residual_stream(data.push(d), foc);
            let digits = binary_digits(d as nat);
            let skip = foc[data.filter(|x: u32| x != 0).len() as int] + 1;
            &&& skip < digits.len() ==> after.len() == before.len() + digits.len() - skip
                && after.subrange(0, before.len() as int) == before && after.subrange(
                before.len() as int,
                after.len() as int,
            ) == digits.subrange(skip, digits.len() as int)
            &&& skip >= digits.len() ==> after == before
        }),
{
    lemma_nonzero_count_is_filter_len(data);
    assert(data.push(d).drop_last() =~= data);
    let before = residual_stream(data, foc);
    let after = residual_stream(data.push(d), foc);
    if d != 0 {
        assert(after.subrange(0, before.len() as int) =~= before);
        let skip = foc[data.filter(|x: u32| x != 0).len() as int] + 1;
        let digits = binary_digits(d as nat);
        if skip < digits.len() {
            assert(after.subrange(before.len() as int, after.len() as int) =~= digits.subrange(
                skip,
                digits.len() as int,
            ));
        } else {
            assert(after =~= before);
        }
    }
}

/// Packs the residual bits of `data` behind a leading one bit: for the `k`-th nonzero
/// element, the binary digits after its first `foc[k] + 1`.
pub fn pack_residuals(data: &[u32], foc: &[u8]) -> (residuals: Vec<u8>)
    requires
        pack_defined(data@, foc@),
    ensures
        residuals@ == bits_to_bytes(seq![true] + residual_stream(data@, foc@)),
{
    let mut bv = bitvec_new();
    bitvec_push(&mut bv, true);
    let mut i: usize = 0;
    let mut n: usize = 0;
    while i < data.len()
        invariant
            i <= data.len(),
            pack_defined(data@, foc@),
            n == nonzero_count(data@.take(i as int)),
            bitvec_bits(bv) == seq![true] + residual_stream(data@.take(i as int), foc@),
        decreases data.len() - i,
    {
        let ghost prefix = data@.take(i as int);
        let ghost next = data@.take(i + 1);
        assert(next.drop_last() =~= prefix);
        proof {
            lemma_residual_stream_len(prefix, foc@);
            lemma_nonzero_count_prefix(data@, i + 1);
        }
        let d = data[i];
        if d != 0 {
            let v = u32_to_bool(d);
            proof {
                lemma_u32_digits_len(d);
            }
            let f = foc[n];
            let start: usize = (f + 1) as usize;
            if v.len() == start {
            } else {
                let mut k: usize = start;
                let ghost base = bitvec_bits(bv);
                while k < v.len()
                    invariant
                        v.len() <= 32,
                        base.len() <= 1 + 32 * i,
                        i < data.len() <= usize::MAX / 64,
                        start < v.len() ==> start <= k <= v.len() && bitvec_bits(bv) == base
                            + v@.subrange(start as int, k as int),
                        start >= v.len() ==> k == start && bitvec_bits(bv) == base,
                    decreases v.len() - k,
                {
                    bitvec_push(&mut bv, v[k]);
                    k += 1;
                }
                assert(bitvec_bits(bv) =~= base + digits_after(d, start as int));
            }
            assert(seq![true] + residual_stream(next, foc@) =~= seq![true] + residual_stream(
                prefix,
                foc@,
            ) + digits_after(d, start as int));
            n += 1;
        } else {
            assert(residual_stream(next, foc@) == residual_stream(prefix, foc@));
        }
        i += 1;
    }
    assert(data@.take(data.len() as int) =~= data@);
    bitvec_to_bytes(&bv)
}

// ----- the compressed container -----

/// The parts of a compressed field.
pub struct FileContainer {
    start: u8,
    bwt: [i32; 2],
    size: usize,
    huff_lzc: Vec<u8>,
    raw_sign: Vec<u8>,
    huff_6re: Vec<u8>,
    raw_res6: Vec<u8>,
    huff_lzc_codebook: HashMap<u8, BitVec>,
    huff_6re_codebook: HashMap<u8, BitVec>,
}

impl FileContainer {
    pub closed spec fn start_byte(&self) -> u8 {
        self.start
    }

    /// The two Burrows-Wheeler indices.
    pub closed spec fn bwt_indices(&self) -> Seq<i32> {
        self.bwt@
    }

    /// Number of values in the field.
    pub closed spec fn value_count(&self) -> usize {
        self.size
    }

    pub closed spec fn lzc_bytes(&self) -> Seq<u8> {
        self.huff_lzc@
    }

    pub closed spec fn sign_bytes(&self) -> Seq<u8> {
        self.raw_sign@
    }

    pub closed spec fn foc_bytes(&self) -> Seq<u8> {
        self.huff_6re@
    }

    pub closed spec fn residual_bytes(&self) -> Seq<u8> {
        self.raw_res6@
    }

    pub closed spec fn lzc_codebook(&self) -> Map<u8, BitVec> {
        self.huff_lzc_codebook@
    }

    pub closed spec fn foc_codebook(&self) -> Map<u8, BitVec> {
        self.huff_6re_codebook@
    }

    pub fn new(
        start: u8,
        size: usize,
        bwt: [i32; 2],
        huff_lzc: Vec<u8>,
        raw_sign: Vec<u8>,
        huff_6re: Vec<u8>,
        raw_res6: Vec<u8>,
        huff_lzc_codebook: HashMap<u8, BitVec>,
        huff_6re_codebook: HashMap<u8, BitVec>,
    ) -> (fc: Self)
        ensures
            fc.start_byte() == start,
            fc.value_count() == size,
            fc.bwt_indices() == bwt@,
            fc.lzc_bytes() == huff_lzc@,
            fc.sign_bytes() == raw_sign@,
            fc.foc_bytes() == huff_6re@,
            fc.residual_bytes() == raw_res6@,
            fc.lzc_codebook() == huff_lzc_codebook@,
            fc.foc_codebook() == huff_6re_codebook@,
    {
        FileContainer {
            start,
            bwt,
            size,
            huff_lzc,
            raw_sign,
            huff_6re,
            raw_res6,
            huff_lzc_codebook,
            huff_6re_codebook,
        }
    }

    /// Size of the compressed output in bytes: the four byte streams and the start byte.
    pub fn nbytes(&self) -> (n: usize)
        requires
            self.lzc_bytes().len() + self.sign_bytes().len() + self.foc_bytes().len()
                + self.residual_bytes().len() + 1 <= usize::MAX,
        ensures
            n == self.lzc_bytes().len() + self.sign_bytes().len() + self.foc_bytes().len()
                + self.residual_bytes().len() + 1,
    {
        self.huff_lzc.len() + self.raw_sign.len() + self.huff_6re.len() + self.raw_res6.len() + 1
    }
}

/// Assembles the compressed form of `data`. The leading-zero-count stream and the
/// first-one-count stream `foc` are Burrows-Wheeler transformed and range coded by stages
/// outside this library; their indices (`bwt`) and coded bytes (`lzc_coded`, `foc_coded`)
/// come in as arguments. The residual bits are packed here (see `pack_residuals`).
pub fn encode_bwt_range(
    data: &[u32],
    foc: &[u8],
    bwt: [i32; 2],
    lzc_coded: Vec<u8>,
    foc_coded: Vec<u8>,
) -> (fc: FileContainer)
    requires
        pack_defined(data@, foc@),
    ensures
        fc.start_byte() == 0,
        fc.value_count() == data.len(),
        fc.bwt_indices() == bwt@,
        fc.lzc_bytes() == lzc_coded@,
        fc.sign_bytes() == Seq::<u8>::empty(),
        fc.foc_bytes() == foc_coded@,
        fc.residual_bytes() == bits_to_bytes(seq![true] + residual_stream(data@, foc@)),
        fc.lzc_codebook() == Map::<u8, BitVec>::empty(),
        fc.foc_codebook() == Map::<u8, BitVec>::empty(),
{
    let residuals = pack_residuals(data, foc);
    FileContainer::new(
        0,
        data.len(),
        bwt,
        lzc_coded,
        Vec::new(),
        foc_coded,
        residuals,
        HashMap::new(),
        HashMap::new(),
    )
}

} // verus!
