//! CRC16-CCITT (polynomial 0x1021, initial value 0xFFFF), bit by bit.

use vstd::prelude::*;

verus! {

/// CRC16 initial value.
pub const CRC_INIT: u16 = 0xFFFF;

/// One shift of the CRC register: shift left, and xor in the polynomial when
/// the bit shifted out was set.
pub open spec fn crc_shift(c: u16) -> u16 {
    if c & 0x8000 != 0 {
        ((c << 1u16) ^ 0x1021u16) as u16
    } else {
        (c << 1u16) as u16
    }
}

/// `k` shifts of the CRC register.
pub open spec fn crc_shifts(c: u16, k: nat) -> u16
    decreases k,
{
    if k == 0 {
        c
    } else {
        crc_shift(crc_shifts(c, (k - 1) as nat))
    }
}

/// The register after feeding one byte, most significant bit first.
pub open spec fn crc_byte(c: u16, b: u8) -> u16 {
    crc_shifts(c ^ ((b as u16) << 8u16), 8)
}

/// The register after feeding `data` in order, starting from `c`.
pub open spec fn crc16_spec(c: u16, data: Seq<u8>) -> u16
    decreases data.len(),
{
    if data.len() == 0 {
        c
    } else {
        crc_byte(crc16_spec(c, data.drop_last()), data.last())
    }
}

/// CRC16-CCITT (poly 0x1021, init 0xFFFF).
///
/// Call incrementally by passing the previous return value as `crc`.
pub fn crc16(crc: u16, data: &[u8]) -> (r: u16)
    ensures
        r == crc16_spec(crc, data@),
{
    let mut c: u16 = crc;
    let mut i: usize = 0;
    while i < data.len()
        invariant
            i <= data.len(),
            c == crc16_spec(crc, data@.take(i as int)),
        decreases data.len() - i,
    {
        let b: u8 = data[i];
        let c0: u16 = c ^ ((b as u16) << 8u16);
        c = c0;
        let mut k: u32 = 0;
        while k < 8
            invariant
                k <= 8,
                c == crc_shifts(c0, k as nat),
            decreases 8 - k,
        {
            c = if c & 0x8000 != 0 {
                (c << 1u16) ^ 0x1021u16
            } else {
                c << 1u16
            };
            k = k + 1;
        }
        assert(data@.take(i + 1).drop_last() =~= data@.take(i as int));
        i = i + 1;
    }
    assert(data@.take(data.len() as int) =~= data@);
    c
}

/// Feeding data in two pieces gives the same CRC as feeding it at once.
pub proof fn lemma_crc16_append(c: u16, a: Seq<u8>, b: Seq<u8>)
    ensures
        crc16_spec(c, a + b) == crc16_spec(crc16_spec(c, a), b),
    decreases b.len(),
{
    if b.len() == 0 {
        assert(a + b =~= a);
    } else {
        lemma_crc16_append(c, a, b.drop_last());
        assert((a + b).drop_last() =~= a + b.drop_last());
        assert((a + b).last() == b.last());
    }
}

/// One step of the bit-serial CCITT register: the incoming message bit is
/// compared with the bit leaving the register, and on a difference the
/// polynomial 0x1021 is xored into the shifted register.
pub open spec fn ccitt_bit(c: u16, bit: u16) -> u16 {
    if ((c >> 15u16) ^ bit) & 1u16 == 1u16 {
        ((c << 1u16) ^ 0x1021u16) as u16
    } else {
        (c << 1u16) as u16
    }
}

/// The bit-serial CCITT register after the eight bits of `b`, most
/// significant first.
pub open spec fn ccitt_serial(c: u16, b: u8) -> u16 {
    let c1 = ccitt_bit(c, ((b >> 7u8) & 1u8) as u16);
    let c2 = ccitt_bit(c1, ((b >> 6u8) & 1u8) as u16);
    let c3 = ccitt_bit(c2, ((b >> 5u8) & 1u8) as u16);
    let c4 = ccitt_bit(c3, ((b >> 4u8) & 1u8) as u16);
    let c5 = ccitt_bit(c4, ((b >> 3u8) & 1u8) as u16);
    let c6 = ccitt_bit(c5, ((b >> 2u8) & 1u8) as u16);
    let c7 = ccitt_bit(c6, ((b >> 1u8) & 1u8) as u16);
    ccitt_bit(c7, (b & 1u8) as u16)
}

/// Every byte, whatever its value, goes through the CRC register: feeding
/// one more byte `b` after `data` moves the register exactly as the
/// bit-serial CRC16-CCITT circuit (polynomial 0x1021) does on the eight bits
/// of `b`, most significant first.
pub proof fn lemma_crc16_byte_is_ccitt(c: u16, data: Seq<u8>, b: u8)
    ensures
        crc16_spec(c, data.push(b)) == ccitt_serial(crc16_spec(c, data), b),
        crc16_spec(c, seq![b]) == ccitt_serial(c, b),
{
    assert(data.push(b).drop_last() =~= data);
    assert(seq![b].drop_last() =~= Seq::<u8>::empty());
    assert(crc16_spec(c, seq![b].drop_last()) == c);
    reveal_with_fuel(crc_shifts, 9);
    let x = crc16_spec(c, data);
    assert(crc_shift(crc_shift(crc_shift(crc_shift(crc_shift(crc_shift(crc_shift(crc_shift(
        x ^ ((b as u16) << 8u16),
    )))))))) == ccitt_serial(x, b)) by (bit_vector);
    assert(crc_shift(crc_shift(crc_shift(crc_shift(crc_shift(crc_shift(crc_shift(crc_shift(
        c ^ ((b as u16) << 8u16),
    )))))))) == ccitt_serial(c, b)) by (bit_vector);
}

/// No data leaves the register as it was.
pub proof fn lemma_crc16_empty(c: u16)
    ensures
        crc16_spec(c, Seq::<u8>::empty()) == c,
{
}

} // verus!
