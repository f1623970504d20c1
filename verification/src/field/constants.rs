use vstd::prelude::*;

verus! {

/// The Goldilocks prime: p = 2^64 - 2^32 + 1
pub const GOLDILOCKS_PRIME: u64 = 0xFFFF_FFFF_0000_0001;

/// p - 1, useful for Fermat's little theorem exponent computation
pub const P_MINUS_ONE: u64 = 0xFFFF_FFFF_0000_0000;

/// p - 2, the exponent for computing multiplicative inverses via Fermat
pub const P_MINUS_TWO: u64 = 0xFFFF_FFFE_FFFF_FFFF;

/// (p - 1) / 2, the exponent for computing the Legendre symbol
pub const P_MINUS_ONE_HALF: u64 = 0x7FFF_FFFF_8000_0000;

/// A known multiplicative generator of GF(p)*
pub const MULTIPLICATIVE_GENERATOR: u64 = 7;

/// The constants are the values their names describe.
pub proof fn lemma_constants_consistent()
    ensures
        GOLDILOCKS_PRIME as int == 0x1_0000_0000_0000_0000 - 0x1_0000_0000 + 1,
        P_MINUS_ONE as int == GOLDILOCKS_PRIME - 1,
        P_MINUS_TWO as int == GOLDILOCKS_PRIME - 2,
        P_MINUS_ONE_HALF as int == P_MINUS_ONE / 2,
{
}

} // verus!
