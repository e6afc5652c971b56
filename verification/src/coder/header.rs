//! The tag at the start of the carrier that names the embedding strategy.

use vstd::prelude::*;
use crate::config::{Algorithm, RgbAlgorithmConfig};

verus! {

pub const ALPHA_MODE: u8 = 1;

pub const RGB_MODE: u8 = 2;

#[derive(Debug, Clone, Copy, PartialEq, Eq, Structural)]
pub struct AlphaHeader {}

#[derive(Debug, Clone, Copy, PartialEq, Eq, Structural)]
pub struct RgbHeader {
    pub bits_per_channel: u8,
}

#[derive(Debug, Clone, Copy, PartialEq, Eq, Structural)]
pub enum AlgHeader {
    Alpha(AlphaHeader),
    Rgb(RgbHeader),
}

#[derive(Debug, Clone, Copy, PartialEq, Eq, Structural)]
pub struct Header {
    pub mode: u8,
    pub alg_header: AlgHeader,
}

/// The header that announces a strategy.
pub open spec fn header_for(algorithm: Algorithm) -> Header {
    match algorithm {
        Algorithm::Alpha => Header {
            mode: ALPHA_MODE,
            alg_header: AlgHeader::Alpha(AlphaHeader {  }),
        },
        Algorithm::Rgb(config) => Header {
            mode: RGB_MODE,
            alg_header: AlgHeader::Rgb(RgbHeader { bits_per_channel: config.bits_per_channel }),
        },
    }
}

/// The channels that the header of a strategy takes: four for each field.
pub open spec fn header_len(algorithm: Algorithm) -> nat {
    4 * header_for(algorithm).field_count()
}

impl Header {
    /// The strategy that the header announces, by its parameters.
    pub open spec fn algorithm(self) -> Algorithm {
        match self.alg_header {
            AlgHeader::Alpha(_) => Algorithm::Alpha,
            AlgHeader::Rgb(alg_header) => Algorithm::Rgb(
                RgbAlgorithmConfig { bits_per_channel: alg_header.bits_per_channel },
            ),
        }
    }

    /// The number of fields: the mode, and the parameter of the strategy
    /// where it has one.
    pub open spec fn field_count(self) -> nat {
        match self.alg_header {
            AlgHeader::Alpha(_) => 1,
            AlgHeader::Rgb(_) => 2,
        }
    }

    pub fn new(mode: u8, alg_header: AlgHeader) -> (header: Self)
        ensures
            header == (Header { mode, alg_header }),
    {
        Self { mode, alg_header }
    }

    pub fn new_alpha() -> (header: Self)
        ensures
            header == (Header { mode: ALPHA_MODE, alg_header: AlgHeader::Alpha(AlphaHeader {  }) }),
    {
        Header { mode: ALPHA_MODE, alg_header: AlgHeader::Alpha(AlphaHeader {  }) }
    }

    pub fn new_rgb(bits_per_channel: u8) -> (header: Self)
        ensures
            header == (Header {
                mode: RGB_MODE,
                alg_header: AlgHeader::Rgb(RgbHeader { bits_per_channel }),
            }),
    {
        Header { mode: RGB_MODE, alg_header: AlgHeader::Rgb(RgbHeader { bits_per_channel }) }
    }

    /// The size of the header in logical bytes; each takes one group of four
    /// channels in the carrier.
    pub fn size(&self) -> (size: usize)
        ensures
            size == self.field_count(),
    {
        let mut size: usize = 0;
        size += 1;
        match &self.alg_header {
            AlgHeader::Alpha(_alg_header) => {},
            AlgHeader::Rgb(_alg_header) => {
                size += 1;
            },
        }
        size
    }
}

} // verus!
