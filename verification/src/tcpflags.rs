use vstd::prelude::*;

verus! {

// TCP header flag bits (the standard bitfield; only SYN, ACK and FIN are
// interpreted by the state machine).
pub const FIN: u8 = 1;
pub const SYN: u8 = 2;
pub const RST: u8 = 4;
pub const PSH: u8 = 8;
pub const ACK: u8 = 16;
pub const URG: u8 = 32;

/// The bit-level facts about the three interpreted flags and their two used
/// combinations, for the callers that reason about flag tests.
pub proof fn lemma_flag_bits()
    ensures
        ACK & SYN == 0,
        ACK & FIN == 0,
        ACK & ACK != 0,
        SYN & ACK == 0,
        SYN & SYN != 0,
        SYN & FIN == 0,
        (SYN | ACK) == 18u8,
        18u8 & SYN != 0,
        18u8 & ACK != 0,
        18u8 & FIN == 0,
        (FIN | ACK) == 17u8,
        17u8 & FIN != 0,
        17u8 & ACK != 0,
        17u8 & SYN == 0,
{
    assert((16u8 & 2u8) == 0u8) by (bit_vector);
    assert((16u8 & 1u8) == 0u8) by (bit_vector);
    assert((16u8 & 16u8) != 0u8) by (bit_vector);
    assert((2u8 & 16u8) == 0u8) by (bit_vector);
    assert((2u8 & 2u8) != 0u8) by (bit_vector);
    assert((2u8 & 1u8) == 0u8) by (bit_vector);
    assert((2u8 | 16u8) == 18u8) by (bit_vector);
    assert((18u8 & 2u8) != 0u8) by (bit_vector);
    assert((18u8 & 16u8) != 0u8) by (bit_vector);
    assert((18u8 & 1u8) == 0u8) by (bit_vector);
    assert((1u8 | 16u8) == 17u8) by (bit_vector);
    assert((17u8 & 1u8) != 0u8) by (bit_vector);
    assert((17u8 & 16u8) != 0u8) by (bit_vector);
    assert((17u8 & 2u8) == 0u8) by (bit_vector);
}

} // verus!
