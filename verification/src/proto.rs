//! Protocol constants, command framing and the two checksums.

use vstd::prelude::*;

verus! {

/// GO_IDLE_STATE: reset the card and select SPI mode.
pub const CMD0: u8 = 0x00;

/// SEND_IF_COND: probe the supported voltage range.
pub const CMD8: u8 = 0x08;

/// SEND_CSD: read the card-specific data register.
pub const CMD9: u8 = 0x09;

/// STOP_TRANSMISSION: end a multiple-block read.
pub const CMD12: u8 = 0x0C;

/// SEND_STATUS: read the status register.
pub const CMD13: u8 = 0x0D;

/// READ_SINGLE_BLOCK.
pub const CMD17: u8 = 0x11;

/// READ_MULTIPLE_BLOCK.
pub const CMD18: u8 = 0x12;

/// WRITE_BLOCK.
pub const CMD24: u8 = 0x18;

/// WRITE_MULTIPLE_BLOCK.
pub const CMD25: u8 = 0x19;

/// APP_CMD: the next command is application specific.
pub const CMD55: u8 = 0x37;

/// READ_OCR: read the operating conditions register.
pub const CMD58: u8 = 0x3A;

/// CRC_ON_OFF: switch checksum verification on the card.
pub const CMD59: u8 = 0x3B;

/// SET_WR_BLK_ERASE_COUNT: announce how many blocks a write will cover.
pub const ACMD23: u8 = 0x17;

/// SD_SEND_OP_COND: start initialisation and poll for its completion.
pub const ACMD41: u8 = 0x29;

/// R1: the card is ready.
pub const R1_READY_STATE: u8 = 0x00;

/// R1: the card is in the idle state.
pub const R1_IDLE_STATE: u8 = 0x01;

/// R1: the card did not recognise the command.
pub const R1_ILLEGAL_COMMAND: u8 = 0x04;

/// Token that precedes the payload of a single-block transfer and of every
/// block of a multiple-block read.
pub const DATA_START_BLOCK: u8 = 0xFE;

/// Token that ends a multiple-block write.
pub const STOP_TRAN_TOKEN: u8 = 0xFD;

/// Token that precedes every block of a multiple-block write.
pub const WRITE_MULTIPLE_TOKEN: u8 = 0xFC;

/// The bits of a data-response byte that carry the status.
pub const DATA_RES_MASK: u8 = 0x1F;

/// Data response: the block was accepted.
pub const DATA_RES_ACCEPTED: u8 = 0x05;

/// One shift of the 7-bit register of CRC-7 (polynomial x^7 + x^3 + 1) on
/// the message bit `bit`.
pub open spec fn crc7_shift(reg: u8, bit: bool) -> u8 {
    let shifted = (reg << 1) & 0x7F;
    if ((reg & 0x40) != 0) != bit {
        shifted ^ 0x09
    } else {
        shifted
    }
}

/// The register after the `count` most significant bits of `byte`.
pub open spec fn crc7_bits(reg: u8, byte: u8, count: nat) -> u8
    decreases count,
{
    if count == 0 {
        reg
    } else {
        crc7_shift(
            crc7_bits(reg, byte, (count - 1) as nat),
            (byte >> ((8 - count) as u8)) & 1 == 1,
        )
    }
}

/// The 7-bit register after all of `data`, starting from zero.
pub open spec fn crc7_register(data: Seq<u8>) -> u8
    decreases data.len(),
{
    if data.len() == 0 {
        0
    } else {
        crc7_bits(crc7_register(data.drop_last()), data.last(), 8)
    }
}

/// The last byte of a command frame: the CRC-7 of the bytes before it in the
/// upper seven bits, and the stop bit.
pub open spec fn crc7_of(data: Seq<u8>) -> u8 {
    (crc7_register(data) << 1) | 1
}

proof fn lemma_crc7_bit(acc: u8, d: u8, reg: u8, byte: u8, count: u8)
    by (bit_vector)
    requires
        count < 8,
        acc & 0x7F == reg,
        d == byte << count,
    ensures
        ({
            let c = acc << 1;
            let next = if ((d & 0x80) ^ (c & 0x80)) != 0 {
                c ^ 0x09
            } else {
                c
            };
            next & 0x7F
        }) == ({
            let shifted = (reg << 1) & 0x7F;
            if ((reg & 0x40) != 0) != ((byte >> ((7 - count) as u8)) & 1 == 1) {
                shifted ^ 0x09
            } else {
                shifted
            }
        }),
        (d << 1) == byte << ((count + 1) as u8),
{
}

proof fn lemma_crc7_stop(acc: u8, reg: u8)
    by (bit_vector)
    requires
        acc & 0x7F == reg,
    ensures
        (acc << 1) | 1 == (reg << 1) | 1,
{
}

/// CRC-7 of `data`, shifted up by one and closed with the stop bit, as it
/// stands in the sixth byte of a command frame.
pub fn crc7(data: &[u8]) -> (crc: u8)
    ensures
        crc == crc7_of(data@),
{
    let mut acc: u8 = 0;
    let mut i: usize = 0;
    assert(0u8 & 0x7F == 0) by (bit_vector);
    while i < data.len()
        invariant
            i <= data.len(),
            acc & 0x7F == crc7_register(data@.take(i as int)),
        decreases data.len() - i,
    {
        let byte = data[i];
        let mut d: u8 = byte;
        let mut k: u8 = 0;
        let ghost reg0 = crc7_register(data@.take(i as int));
        assert(byte << 0u8 == byte) by (bit_vector);
        while k < 8
            invariant
                k <= 8,
                d == byte << k,
                acc & 0x7F == crc7_bits(reg0, byte, k as nat),
            decreases 8 - k,
        {
            proof {
                lemma_crc7_bit(acc, d, crc7_bits(reg0, byte, k as nat), byte, k);
            }
            acc = acc << 1;
            if ((d & 0x80) ^ (acc & 0x80)) != 0 {
                acc = acc ^ 0x09;
            }
            d = d << 1;
            k = k + 1;
        }
        proof {
            let next = data@.take(i + 1);
            assert(next.drop_last() =~= data@.take(i as int));
            assert(next.last() == byte);
        }
        i = i + 1;
    }
    proof {
        assert(data@.take(i as int) =~= data@);
        lemma_crc7_stop(acc, crc7_register(data@));
    }
    (acc << 1) | 1
}

/// One shift of the 16-bit register of CRC-16-CCITT (polynomial
/// x^16 + x^12 + x^5 + 1).
pub open spec fn crc16_shift(reg: u16) -> u16 {
    if reg & 0x8000 != 0 {
        (reg << 1) ^ 0x1021
    } else {
        reg << 1
    }
}

/// The register after one more message byte, most significant bit first.
pub open spec fn crc16_update(reg: u16, byte: u8) -> u16 {
    crc16_shift(
        crc16_shift(
            crc16_shift(
                crc16_shift(
                    crc16_shift(
                        crc16_shift(crc16_shift(crc16_shift(reg ^ ((byte as u16) << 8)))),
                    ),
                ),
            ),
        ),
    )
}

/// CRC-16-CCITT of `data`: initial value zero, no reflection, no final
/// inversion.
pub open spec fn crc16_of(data: Seq<u8>) -> u16
    decreases data.len(),
{
    if data.len() == 0 {
        0
    } else {
        crc16_update(crc16_of(data.drop_last()), data.last())
    }
}

proof fn lemma_crc16_bytewise(reg: u16, byte: u8)
    by (bit_vector)
    ensures
        ({
            let a = ((reg >> 8) & 0xFF) | (reg << 8);
            let b = a ^ (byte as u16);
            let c = b ^ ((b & 0xFF) >> 4);
            let d = c ^ (c << 12);
            d ^ ((d & 0xFF) << 5)
        }) == crc16_update(reg, byte),
{
}

/// CRC-16-CCITT of `data`, computed a byte at a time.
pub fn crc16(data: &[u8]) -> (crc: u16)
    ensures
        crc == crc16_of(data@),
{
    let mut crc: u16 = 0;
    let mut i: usize = 0;
    while i < data.len()
        invariant
            i <= data.len(),
            crc == crc16_of(data@.take(i as int)),
        decreases data.len() - i,
    {
        let byte = data[i];
        proof {
            lemma_crc16_bytewise(crc, byte);
            let next = data@.take(i + 1);
            assert(next.drop_last() =~= data@.take(i as int));
            assert(next.last() == byte);
        }
        crc = ((crc >> 8) & 0xFF) | (crc << 8);
        crc = crc ^ (byte as u16);
        crc = crc ^ ((crc & 0xFF) >> 4);
        crc = crc ^ (crc << 12);
        crc = crc ^ ((crc & 0xFF) << 5);
        i = i + 1;
    }
    proof {
        assert(data@.take(i as int) =~= data@);
    }
    crc
}

proof fn lemma_crc16_bit_shows(reg: u16, byte: u8, bit: u8)
    by (bit_vector)
    requires
        bit < 8,
    ensures
        crc16_update(reg, byte ^ (1u8 << bit)) != crc16_update(reg, byte),
{
}

proof fn lemma_crc16_difference_stays(one: u16, other: u16, byte: u8)
    by (bit_vector)
    requires
        one != other,
    ensures
        crc16_update(one, byte) != crc16_update(other, byte),
{
}

/// Two messages of one length that differ in one bit of one byte have
/// different checksums: CRC-16 catches every single flipped bit.
pub proof fn law_crc16_catches_a_flipped_bit(data: Seq<u8>, at: int, bit: u8)
    requires
        0 <= at < data.len(),
        bit < 8,
    ensures
        crc16_of(data.update(at, data[at] ^ (1u8 << bit))) != crc16_of(data),
    decreases data.len(),
{
    let flipped = data.update(at, data[at] ^ (1u8 << bit));
    if at == data.len() - 1 {
        assert(flipped.drop_last() =~= data.drop_last());
        lemma_crc16_bit_shows(crc16_of(data.drop_last()), data[at], bit);
    } else {
        assert(flipped.drop_last() =~= data.drop_last().update(at, data[at] ^ (1u8 << bit)));
        law_crc16_catches_a_flipped_bit(data.drop_last(), at, bit);
        lemma_crc16_difference_stays(
            crc16_of(flipped.drop_last()),
            crc16_of(data.drop_last()),
            data.last(),
        );
    }
}

} // verus!
