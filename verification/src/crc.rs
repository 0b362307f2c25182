//! The CRC-32 checksum that protects every chunk.
//!
//! The checksum is the reflected CRC-32 with polynomial `0xEDB88320`, an
//! all-ones initial value and a final inversion. It is defined here the
//! table-driven way and computed the same way; the module also proves that
//! the table-driven step equals eight single-bit shifts of the register and
//! that a change to one byte of the input always changes the checksum.
use vstd::prelude::*;

verus! {

/// The reflected generator polynomial of CRC-32.
pub const POLYNOMIAL: u32 = 0xedb8_8320;

/// One bit of polynomial division: the register moves right by one bit and
/// the polynomial is folded in when the bit that fell out was set.
pub open spec fn shift_bit(c: u32) -> u32 {
    if c & 1 == 1 {
        POLYNOMIAL ^ (c >> 1)
    } else {
        c >> 1
    }
}

/// `n` successive applications of [`shift_bit`].
pub open spec fn shift_bits(c: u32, n: nat) -> u32
    decreases n,
{
    if n == 0 {
        c
    } else {
        shift_bit(shift_bits(c, (n - 1) as nat))
    }
}

/// Entry `i` of the lookup table: `i` pushed through eight bit shifts.
pub open spec fn table_entry(i: int) -> u32 {
    shift_bits(i as u32, 8)
}

/// The register after one more input byte: the table entry selected by the
/// low byte of the register xor the input byte, xor the register moved
/// right by eight bits.
pub open spec fn update(acc: u32, byte: u8) -> u32 {
    table_entry(((acc & 0xff) ^ (byte as u32)) as int) ^ (acc >> 8)
}

/// The register after all of `bytes`, starting from all ones.
pub open spec fn accumulate(bytes: Seq<u8>) -> u32
    decreases bytes.len(),
{
    if bytes.len() == 0 {
        0xffff_ffff
    } else {
        update(accumulate(bytes.drop_last()), bytes.last())
    }
}

/// The CRC-32 of `bytes`: the final register, inverted.
pub open spec fn crc32(bytes: Seq<u8>) -> u32 {
    accumulate(bytes) ^ 0xffff_ffff
}

/// A bit shift distributes over xor: it is linear over the field of two
/// elements.
proof fn lemma_shift_bit_xor(a: u32, b: u32)
    ensures
        shift_bit(a ^ b) == shift_bit(a) ^ shift_bit(b),
{
    assert(shift_bit(a ^ b) == shift_bit(a) ^ shift_bit(b)) by (bit_vector);
}

/// Any number of bit shifts distributes over xor.
proof fn lemma_shift_bits_xor(a: u32, b: u32, n: nat)
    ensures
        shift_bits(a ^ b, n) == shift_bits(a, n) ^ shift_bits(b, n),
    decreases n,
{
    if n > 0 {
        let m = (n - 1) as nat;
        lemma_shift_bits_xor(a, b, m);
        lemma_shift_bit_xor(shift_bits(a, m), shift_bits(b, m));
    }
}

/// While only zero bits fall out of the register, shifting it bit by bit is
/// a plain right shift.
proof fn lemma_shift_bits_of_high_part(x: u32, n: nat)
    requires
        n <= 8,
        x & 0xff == 0,
    ensures
        shift_bits(x, n) == x >> (n as u32),
    decreases n,
{
    if n == 0 {
        assert(x >> 0u32 == x) by (bit_vector);
    } else {
        let m = (n - 1) as nat;
        lemma_shift_bits_of_high_part(x, m);
        let k: u32 = m as u32;
        let k1: u32 = n as u32;
        let y: u32 = x >> k;
        assert(shift_bit(y) == x >> k1) by (bit_vector)
            requires
                x & 0xff == 0,
                k < 8,
                k1 == k + 1,
                y == x >> k,
        ;
    }
}

/// A bit shift loses nothing: the bit that fell out can be read off the top
/// bit of the result, because the polynomial has its top bit set.
proof fn lemma_shift_bit_injective(a: u32, b: u32)
    requires
        shift_bit(a) == shift_bit(b),
    ensures
        a == b,
{
    assert(shift_bit(a) == shift_bit(b) ==> a == b) by (bit_vector);
}

/// Any number of bit shifts loses nothing.
proof fn lemma_shift_bits_injective(a: u32, b: u32, n: nat)
    requires
        shift_bits(a, n) == shift_bits(b, n),
    ensures
        a == b,
    decreases n,
{
    if n > 0 {
        let m = (n - 1) as nat;
        lemma_shift_bit_injective(shift_bits(a, m), shift_bits(b, m));
        lemma_shift_bits_injective(a, b, m);
    }
}

/// The table-driven step is the bit-by-bit one: feeding a byte to the
/// register xors it into the low byte and shifts eight single bits out.
pub proof fn lemma_update_is_eight_shifts(acc: u32, byte: u8)
    ensures
        update(acc, byte) == shift_bits(acc ^ (byte as u32), 8),
{
    let x: u32 = acc ^ (byte as u32);
    let lo: u32 = x & 0xff;
    let hi: u32 = x & 0xffff_ff00;
    assert(x == lo ^ hi && hi & 0xff == 0 && lo < 256) by (bit_vector)
        requires
            lo == x & 0xff,
            hi == x & 0xffff_ff00,
    ;
    assert(lo == (acc & 0xff) ^ (byte as u32) && hi >> 8 == acc >> 8) by (bit_vector)
        requires
            x == acc ^ (byte as u32),
            lo == x & 0xff,
            hi == x & 0xffff_ff00,
    ;
    lemma_shift_bits_xor(lo, hi, 8);
    lemma_shift_bits_of_high_part(hi, 8);
}

/// Two registers that differ still differ after the same byte is fed to
/// both.
pub proof fn lemma_update_keeps_registers_apart(acc1: u32, acc2: u32, byte: u8)
    requires
        acc1 != acc2,
    ensures
        update(acc1, byte) != update(acc2, byte),
{
    lemma_update_is_eight_shifts(acc1, byte);
    lemma_update_is_eight_shifts(acc2, byte);
    let b: u32 = byte as u32;
    if update(acc1, byte) == update(acc2, byte) {
        lemma_shift_bits_injective(acc1 ^ b, acc2 ^ b, 8);
        assert(acc1 ^ b == acc2 ^ b ==> acc1 == acc2) by (bit_vector);
    }
}

/// Feeding two different bytes to one register gives two different
/// registers.
pub proof fn lemma_update_tells_bytes_apart(acc: u32, byte1: u8, byte2: u8)
    requires
        byte1 != byte2,
    ensures
        update(acc, byte1) != update(acc, byte2),
{
    lemma_update_is_eight_shifts(acc, byte1);
    lemma_update_is_eight_shifts(acc, byte2);
    if update(acc, byte1) == update(acc, byte2) {
        lemma_shift_bits_injective(acc ^ (byte1 as u32), acc ^ (byte2 as u32), 8);
        assert(acc ^ (byte1 as u32) == acc ^ (byte2 as u32) ==> byte1 == byte2) by (bit_vector);
    }
}

/// Replacing one byte of the input by a different one changes the final
/// register.
proof fn lemma_accumulate_detects_byte_change(bytes: Seq<u8>, k: int, byte: u8)
    requires
        0 <= k < bytes.len(),
        byte != bytes[k],
    ensures
        accumulate(bytes.update(k, byte)) != accumulate(bytes),
    decreases bytes.len(),
{
    let changed = bytes.update(k, byte);
    if k == bytes.len() - 1 {
        assert(changed.drop_last() =~= bytes.drop_last());
        lemma_update_tells_bytes_apart(accumulate(bytes.drop_last()), byte, bytes[k]);
    } else {
        assert(changed.drop_last() =~= bytes.drop_last().update(k, byte));
        lemma_accumulate_detects_byte_change(bytes.drop_last(), k, byte);
        lemma_update_keeps_registers_apart(
            accumulate(changed.drop_last()),
            accumulate(bytes.drop_last()),
            bytes.last(),
        );
    }
}

/// The checksum detects every change that is confined to one byte, and so
/// every single flipped bit: replacing one byte of the input by a different
/// one changes the CRC-32.
pub proof fn lemma_crc32_detects_byte_change(bytes: Seq<u8>, k: int, byte: u8)
    requires
        0 <= k < bytes.len(),
        byte != bytes[k],
    ensures
        crc32(bytes.update(k, byte)) != crc32(bytes),
{
    lemma_accumulate_detects_byte_change(bytes, k, byte);
    let a: u32 = accumulate(bytes.update(k, byte));
    let b: u32 = accumulate(bytes);
    assert(a ^ 0xffff_ffff == b ^ 0xffff_ffff ==> a == b) by (bit_vector);
}

/// Builds the 256-entry lookup table.
pub fn create_crc_table() -> (table: [u32; 256])
    ensures
        forall|i: int| 0 <= i < 256 ==> #[trigger] table@[i] == table_entry(i),
{
    let mut crc_table: [u32; 256] = [0u32; 256];
    let mut index: usize = 0;
    while index < 256
        invariant
            index <= 256,
            forall|i: int| 0 <= i < index ==> #[trigger] crc_table@[i] == table_entry(i),
        decreases 256 - index,
    {
        let mut c: u32 = index as u32;
        let mut round: u8 = 0;
        while round < 8
            invariant
                round <= 8,
                index < 256,
                c == shift_bits(index as u32, round as nat),
            decreases 8 - round,
        {
            if c & 1 == 1 {
                c = POLYNOMIAL ^ (c >> 1);
            } else {
                c = c >> 1;
            }
            round = round + 1;
        }
        crc_table[index] = c;
        index = index + 1;
    }
    crc_table
}

/// Computes the CRC-32 of `value`.
pub fn calculate_crc(value: &[u8]) -> (crc: u32)
    ensures
        crc == crc32(value@),
{
    let crc_table = create_crc_table();
    let mut crc: u32 = 0xffff_ffff;
    let mut pos: usize = 0;
    while pos < value.len()
        invariant
            pos <= value.len(),
            forall|i: int| 0 <= i < 256 ==> #[trigger] crc_table@[i] == table_entry(i),
            crc == accumulate(value@.take(pos as int)),
        decreases value.len() - pos,
    {
        let byte: u8 = value[pos];
        let low: u8 = #[verifier::truncate] (crc as u8);
        let slot: usize = (low ^ byte) as usize;
        proof {
            assert(((low ^ byte) as u32) == ((crc & 0xff) ^ (byte as u32))) by (bit_vector)
                requires
                    low == crc as u8,
            ;
            assert(value@.take(pos + 1).drop_last() == value@.take(pos as int));
            assert(value@.take(pos + 1).last() == byte);
        }
        crc = crc_table[slot] ^ (crc >> 8);
        pos = pos + 1;
    }
    proof {
        assert(value@.take(pos as int) == value@);
    }
    crc ^ 0xffff_ffff
}

} // verus!
