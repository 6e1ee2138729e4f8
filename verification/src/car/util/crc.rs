//! The CRC-64 of ISO 3309 (as Go's `hash/crc64` computes it with its ISO
//! table): the checksum that data frames carry for the whole payload.
use vstd::prelude::*;

verus! {

/// The ISO 3309 polynomial, bit-reversed.
pub const ISO_POLY_REVERSED: u64 = 0xD800_0000_0000_0000u64;

/// One bit step of the reflected register.
pub open spec fn crc_bit(c: u64) -> u64 {
    if c & 1u64 == 1u64 {
        (c >> 1u64) ^ ISO_POLY_REVERSED
    } else {
        c >> 1u64
    }
}

/// The register after taking in one byte, low bit first.
pub open spec fn crc_byte(c: u64, b: u8) -> u64 {
    crc_bit(crc_bit(crc_bit(crc_bit(crc_bit(crc_bit(crc_bit(crc_bit(c ^ (b as u64)))))))))
}

/// The register after taking in `data`, starting from all ones.
pub open spec fn crc_register(data: Seq<u8>) -> u64
    decreases data.len(),
{
    if data.len() == 0 {
        0xFFFF_FFFF_FFFF_FFFFu64
    } else {
        crc_byte(crc_register(data.drop_last()), data.last())
    }
}

/// The CRC-64/ISO checksum of `data`: the final register with every bit flipped.
pub open spec fn crc64_iso(data: Seq<u8>) -> u64 {
    crc_register(data) ^ 0xFFFF_FFFF_FFFF_FFFFu64
}

fn step_bit(c: u64) -> (r: u64)
    ensures
        r == crc_bit(c),
{
    if c & 1u64 == 1u64 {
        (c >> 1u64) ^ ISO_POLY_REVERSED
    } else {
        c >> 1u64
    }
}

fn step_byte(c: u64, b: u8) -> (r: u64)
    ensures
        r == crc_byte(c, b),
{
    let mut x: u64 = c ^ (b as u64);
    x = step_bit(x);
    x = step_bit(x);
    x = step_bit(x);
    x = step_bit(x);
    x = step_bit(x);
    x = step_bit(x);
    x = step_bit(x);
    step_bit(x)
}

/// The CRC-64/ISO checksum of `data`.
pub fn checksum_crc64(data: &[u8]) -> (res: u64)
    ensures
        res == crc64_iso(data@),
{
    let mut reg: u64 = 0xFFFF_FFFF_FFFF_FFFFu64;
    let mut i: usize = 0;
    assert(data@.take(0) =~= Seq::<u8>::empty());
    while i < data.len()
        invariant
            i <= data@.len(),
            reg == crc_register(data@.take(i as int)),
        decreases data@.len() - i,
    {
        assert(data@.take(i + 1).drop_last() =~= data@.take(i as int));
        reg = step_byte(reg, data[i]);
        i += 1;
    }
    assert(data@.take(i as int) =~= data@);
    reg ^ 0xFFFF_FFFF_FFFF_FFFFu64
}

/// A byte step is the table-driven step of CRC-64/ISO: the register shifted
/// down one byte, xored with the step of the low byte of register xor byte
/// (the byte taken as an unsigned 8-bit value) from a zero register.
pub proof fn lemma_crc_byte_table(c: u64, b: u8)
    ensures
        crc_byte(c, b) == (c >> 8u64) ^ crc_byte(0u64, ((c ^ (b as u64)) & 0xffu64) as u8),
{
    assert(crc_byte(c, b) == (c >> 8u64) ^ crc_byte(0u64, ((c ^ (b as u64)) & 0xffu64) as u8)) by (bit_vector);
}

/// One bit step is linear over xor.
proof fn lemma_crc_bit_linear(x: u64, y: u64)
    ensures
        crc_bit(x ^ y) == crc_bit(x) ^ crc_bit(y),
{
    assert(crc_bit(x ^ y) == crc_bit(x) ^ crc_bit(y)) by (bit_vector);
}

/// Eight bit steps are linear over xor.
proof fn lemma_crc_bits8_linear(x: u64, y: u64)
    ensures
        crc_bit(crc_bit(crc_bit(crc_bit(crc_bit(crc_bit(crc_bit(crc_bit(x ^ y))))))))
            == crc_bit(crc_bit(crc_bit(crc_bit(crc_bit(crc_bit(crc_bit(crc_bit(x))))))))
                ^ crc_bit(crc_bit(crc_bit(crc_bit(crc_bit(crc_bit(crc_bit(crc_bit(y)))))))),
{
    let mut a = x;
    let mut b = y;
    lemma_crc_bit_linear(a, b);
    a = crc_bit(a); b = crc_bit(b);
    lemma_crc_bit_linear(a, b);
    a = crc_bit(a); b = crc_bit(b);
    lemma_crc_bit_linear(a, b);
    a = crc_bit(a); b = crc_bit(b);
    lemma_crc_bit_linear(a, b);
    a = crc_bit(a); b = crc_bit(b);
    lemma_crc_bit_linear(a, b);
    a = crc_bit(a); b = crc_bit(b);
    lemma_crc_bit_linear(a, b);
    a = crc_bit(a); b = crc_bit(b);
    lemma_crc_bit_linear(a, b);
    a = crc_bit(a); b = crc_bit(b);
    lemma_crc_bit_linear(a, b);
}

/// The byte step is linear over xor, in the register and the byte together,
/// as a CRC is: no constant is folded in.
pub proof fn lemma_crc_byte_linear(c1: u64, b1: u8, c2: u64, b2: u8)
    ensures
        crc_byte(c1 ^ c2, b1 ^ b2) == crc_byte(c1, b1) ^ crc_byte(c2, b2),
{
    let x = c1 ^ (b1 as u64);
    let y = c2 ^ (b2 as u64);
    assert((c1 ^ c2) ^ ((b1 ^ b2) as u64) == (c1 ^ (b1 as u64)) ^ (c2 ^ (b2 as u64))) by (bit_vector);
    lemma_crc_bits8_linear(x, y);
}

/// The byte step of one set bit from a zero register is the reflected ISO
/// polynomial shifted down by the bit's distance from the top of the byte.
pub proof fn lemma_crc_byte_single_bits()
    ensures
        crc_byte(0u64, 0x80u8) == ISO_POLY_REVERSED,
        crc_byte(0u64, 0x40u8) == 0x6C00_0000_0000_0000u64,
        crc_byte(0u64, 0x01u8) == 0x01B0_0000_0000_0000u64,
{
    assert(crc_byte(0u64, 0x80u8) == 0xD800_0000_0000_0000u64) by (bit_vector);
    assert(crc_byte(0u64, 0x40u8) == 0x6C00_0000_0000_0000u64) by (bit_vector);
    assert(crc_byte(0u64, 0x01u8) == 0x01B0_0000_0000_0000u64) by (bit_vector);
}

/// The checksum starts from all ones and flips every bit at the end: the empty
/// payload sums to zero, and each byte is folded into the register that the
/// checksum so far stands for.
pub proof fn lemma_crc64_iso_append(data: Seq<u8>, b: u8)
    ensures
        crc64_iso(Seq::<u8>::empty()) == 0u64,
        crc64_iso(data.push(b)) == crc_byte(crc64_iso(data) ^ 0xFFFF_FFFF_FFFF_FFFFu64, b) ^ 0xFFFF_FFFF_FFFF_FFFFu64,
{
    assert(data.push(b).drop_last() =~= data);
    let r = crc_register(data);
    assert((r ^ 0xFFFF_FFFF_FFFF_FFFFu64) ^ 0xFFFF_FFFF_FFFF_FFFFu64 == r) by (bit_vector);
    assert(0xFFFF_FFFF_FFFF_FFFFu64 ^ 0xFFFF_FFFF_FFFF_FFFFu64 == 0u64) by (bit_vector);
}

/// The register after a byte appended is that byte folded into the register
/// before it.
proof fn lemma_crc_register_push(data: Seq<u8>, b: u8)
    ensures
        crc_register(data.push(b)) == crc_byte(crc_register(data), b),
{
    assert(data.push(b).drop_last() =~= data);
}

/// The published check value of CRC-64/GO-ISO ("123456789"), and payloads
/// with high bytes.
pub proof fn lemma_crc64_iso_check_values()
    ensures
        crc64_iso(seq![0x31u8, 0x32u8, 0x33u8, 0x34u8, 0x35u8, 0x36u8, 0x37u8, 0x38u8, 0x39u8]) == 0xb90956c775a41001u64,
        crc64_iso(seq![0x80u8]) == 0xb790000000000000u64,
        crc64_iso(seq![0xffu8, 0x01u8]) == 0x6edf000000000000u64,
{
    {
        let s0 = Seq::<u8>::empty();
        let s1 = s0.push(0x31u8);
        lemma_crc_register_push(s0, 0x31u8);
        assert(crc_byte(0xffffffffffffffffu64, 0x31u8) == 0xbcdfffffffffffffu64) by (bit_vector);
        let s2 = s1.push(0x32u8);
        lemma_crc_register_push(s1, 0x32u8);
        assert(crc_byte(0xbcdfffffffffffffu64, 0x32u8) == 0xbe4cdfffffffffffu64) by (bit_vector);
        let s3 = s2.push(0x33u8);
        lemma_crc_register_push(s2, 0x33u8);
        assert(crc_byte(0xbe4cdfffffffffffu64, 0x33u8) == 0xbffe4cdfffffffffu64) by (bit_vector);
        let s4 = s3.push(0x34u8);
        lemma_crc_register_push(s3, 0x34u8);
        assert(crc_byte(0xbffe4cdfffffffffu64, 0x34u8) == 0xbbeffe4cdfffffffu64) by (bit_vector);
        let s5 = s4.push(0x35u8);
        lemma_crc_register_push(s4, 0x35u8);
        assert(crc_byte(0xbbeffe4cdfffffffu64, 0x35u8) == 0xba5beffe4cdfffffu64) by (bit_vector);
        let s6 = s5.push(0x36u8);
        lemma_crc_register_push(s5, 0x36u8);
        assert(crc_byte(0xba5beffe4cdfffffu64, 0x36u8) == 0xb88a5beffe4cdfffu64) by (bit_vector);
        let s7 = s6.push(0x37u8);
        lemma_crc_register_push(s6, 0x37u8);
        assert(crc_byte(0xb88a5beffe4cdfffu64, 0x37u8) == 0xb9388a5beffe4cdfu64) by (bit_vector);
        let s8 = s7.push(0x38u8);
        lemma_crc_register_push(s7, 0x38u8);
        assert(crc_byte(0xb9388a5beffe4cdfu64, 0x38u8) == 0x86a9388a5beffe4cu64) by (bit_vector);
        let s9 = s8.push(0x39u8);
        lemma_crc_register_push(s8, 0x39u8);
        assert(crc_byte(0x86a9388a5beffe4cu64, 0x39u8) == 0x46f6a9388a5beffeu64) by (bit_vector);
        assert(0x46f6a9388a5beffeu64 ^ 0xFFFF_FFFF_FFFF_FFFFu64 == 0xb90956c775a41001u64) by (bit_vector);
        assert(s9 =~= seq![0x31u8, 0x32u8, 0x33u8, 0x34u8, 0x35u8, 0x36u8, 0x37u8, 0x38u8, 0x39u8]);
    }
    {
        let s0 = Seq::<u8>::empty();
        let s1 = s0.push(0x80u8);
        lemma_crc_register_push(s0, 0x80u8);
        assert(crc_byte(0xffffffffffffffffu64, 0x80u8) == 0x486fffffffffffffu64) by (bit_vector);
        assert(0x486fffffffffffffu64 ^ 0xFFFF_FFFF_FFFF_FFFFu64 == 0xb790000000000000u64) by (bit_vector);
        assert(s1 =~= seq![0x80u8]);
    }
    {
        let s0 = Seq::<u8>::empty();
        let s1 = s0.push(0xffu8);
        lemma_crc_register_push(s0, 0xffu8);
        assert(crc_byte(0xffffffffffffffffu64, 0xffu8) == 0x00ffffffffffffffu64) by (bit_vector);
        let s2 = s1.push(0x01u8);
        lemma_crc_register_push(s1, 0x01u8);
        assert(crc_byte(0x00ffffffffffffffu64, 0x01u8) == 0x9120ffffffffffffu64) by (bit_vector);
        assert(0x9120ffffffffffffu64 ^ 0xFFFF_FFFF_FFFF_FFFFu64 == 0x6edf000000000000u64) by (bit_vector);
        assert(s2 =~= seq![0xffu8, 0x01u8]);
    }
}

} // verus!
