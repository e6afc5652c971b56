//! The choice of embedding strategy.

use vstd::prelude::*;

verus! {

/// Parameters of the strategy that uses the low bits of every channel.
#[derive(Debug, Clone, Copy, PartialEq, Eq, Structural)]
pub struct RgbAlgorithmConfig {
    pub bits_per_channel: u8,
}

/// The embedding strategy of one encode call.
#[derive(Debug, Clone, Copy, PartialEq, Eq, Structural)]
pub enum Algorithm {
    Rgb(RgbAlgorithmConfig),
    Alpha,
}

/// The widths the bit-packing strategy works with: those that divide a byte.
pub open spec fn supported_bits(bits: u8) -> bool {
    bits == 1 || bits == 2 || bits == 4 || bits == 8
}

impl Algorithm {
    /// Alpha always; the bit-packing strategy only with a supported width.
    pub open spec fn supported(self) -> bool {
        match self {
            Algorithm::Alpha => true,
            Algorithm::Rgb(config) => supported_bits(config.bits_per_channel),
        }
    }

    pub fn is_supported(&self) -> (r: bool)
        ensures
            r == self.supported(),
    {
        match self {
            Algorithm::Alpha => true,
            Algorithm::Rgb(config) => is_supported_bits(config.bits_per_channel),
        }
    }
}

pub fn is_supported_bits(bits: u8) -> (r: bool)
    ensures
        r == supported_bits(bits),
{
    bits == 1 || bits == 2 || bits == 4 || bits == 8
}

} // verus!
