//! Where the logical bytes of a strategy lie in the carrier: the model that
//! the contracts of the encoders and decoders speak of.
//!
//! A carrier is a sequence of channel bytes. The alpha strategy keeps logical
//! byte `i` in channel `4 * i + 3`. The bit-packing strategy splits a logical
//! byte into fragments of `bits` bits, most significant first, and keeps
//! fragment `j` of byte `i` in the low bits of channel `i * (8 / bits) + j`.

use vstd::prelude::*;
use crate::config::{Algorithm, RgbAlgorithmConfig, supported_bits};
use crate::coder::util::{mask_value, lemma_mask_table};

verus! {

/// The number of channels that carry one logical byte under bit-packing.
pub open spec fn fragments(bits: u8) -> int {
    8int / (bits as int)
}

/// The distance in channels from one logical byte to the next.
pub open spec fn stride(algorithm: Algorithm) -> int {
    match algorithm {
        Algorithm::Alpha => 4,
        Algorithm::Rgb(config) => fragments(config.bits_per_channel),
    }
}

/// Whether channel `p` carries data at all.
pub open spec fn carries(algorithm: Algorithm, p: int) -> bool {
    match algorithm {
        Algorithm::Alpha => p % 4 == 3,
        Algorithm::Rgb(_) => true,
    }
}

/// The number of logical bytes that a carrier of `len` channels holds.
pub open spec fn capacity(algorithm: Algorithm, len: nat) -> nat {
    match algorithm {
        Algorithm::Alpha => len / 4,
        Algorithm::Rgb(config) => ((len * config.bits_per_channel) / 8) as nat,
    }
}

/// Fragment `j` of `byte`, counted from the most significant one.
pub open spec fn fragment(byte: u8, bits: u8, j: int) -> u8 {
    (byte >> ((8 - bits * (j + 1)) as u8)) & mask_value(bits)
}

/// Channel `p` after it has taken its part of `byte`: under alpha the byte
/// itself, under bit-packing the old high bits over the fragment.
pub open spec fn merge(algorithm: Algorithm, channel: u8, byte: u8, p: int) -> u8 {
    match algorithm {
        Algorithm::Alpha => byte,
        Algorithm::Rgb(config) => (channel & !mask_value(config.bits_per_channel)) | fragment(
            byte,
            config.bits_per_channel,
            p % fragments(config.bits_per_channel),
        ),
    }
}

/// The carrier after `bytes` have been written as the logical bytes
/// `start`, `start + 1`, and so on. Every other channel keeps its value.
pub open spec fn embed_at(algorithm: Algorithm, carrier: Seq<u8>, start: int, bytes: Seq<u8>) -> Seq<u8> {
    Seq::new(
        carrier.len(),
        |p: int|
            if carries(algorithm, p) && start <= p / stride(algorithm) < start + bytes.len() {
                merge(algorithm, carrier[p], bytes[p / stride(algorithm) - start], p)
            } else {
                carrier[p]
            },
    )
}

/// The carrier after `bytes` have been written from its first logical byte on.
pub open spec fn embed(algorithm: Algorithm, carrier: Seq<u8>, bytes: Seq<u8>) -> Seq<u8> {
    embed_at(algorithm, carrier, 0, bytes)
}

/// A byte moved up by one fragment; nothing is left of it at full width.
pub open spec fn shift_in(byte: u8, bits: u8) -> u8 {
    if bits >= 8 {
        0
    } else {
        byte << (bits as u32)
    }
}

/// The value gathered from the low bits of the `count` channels from `base`
/// on, the first channel ending up most significant.
pub open spec fn assemble(carrier: Seq<u8>, base: int, bits: u8, count: int) -> u8
    decreases count,
{
    if count <= 0 {
        0
    } else {
        shift_in(assemble(carrier, base, bits, count - 1), bits) | (carrier[base + count - 1]
            & mask_value(bits))
    }
}

/// Logical byte `i` of the carrier.
pub open spec fn logical_byte(algorithm: Algorithm, carrier: Seq<u8>, i: int) -> u8 {
    match algorithm {
        Algorithm::Alpha => carrier[4 * i + 3],
        Algorithm::Rgb(config) => assemble(
            carrier,
            i * fragments(config.bits_per_channel),
            config.bits_per_channel,
            fragments(config.bits_per_channel),
        ),
    }
}

/// All logical bytes of the carrier, in order.
pub open spec fn extract(algorithm: Algorithm, carrier: Seq<u8>) -> Seq<u8> {
    Seq::new(capacity(algorithm, carrier.len()), |i: int| logical_byte(algorithm, carrier, i))
}

/// The strategy with the given width.
pub open spec fn rgb(bits: u8) -> Algorithm {
    Algorithm::Rgb(RgbAlgorithmConfig { bits_per_channel: bits })
}

/// With a supported strategy the capacity is the number of whole groups of
/// channels, one group for each logical byte.
pub proof fn lemma_capacity(algorithm: Algorithm, len: nat)
    requires
        algorithm.supported(),
    ensures
        1 <= stride(algorithm) <= 8,
        capacity(algorithm, len) == (len as int) / stride(algorithm),
        capacity(algorithm, len) * stride(algorithm) <= len,
{
    let n = stride(algorithm);
    let c = capacity(algorithm, len);
    match algorithm {
        Algorithm::Alpha => {
            assert(n == 4 && c == len / 4);
            assert(c == (len as int) / n);
        },
        Algorithm::Rgb(config) => {
            let bits = config.bits_per_channel;
            if bits == 1 {
                assert(n == 8 && c == len / 8);
                assert(c == (len as int) / n);
            } else if bits == 2 {
                assert(n == 4 && c == (len * 2) / 8 && c == len / 4);
                assert(c == (len as int) / n);
            } else if bits == 4 {
                assert(n == 2 && c == (len * 4) / 8 && c == len / 2);
                assert(c == (len as int) / n);
            } else {
                assert(n == 1 && c == (len * 8) / 8 && c == len);
                assert((len as int) / 1 == len);
            }
        },
    }
    assert(c * n <= len) by (nonlinear_arith)
        requires
            (n == 1 || n == 2 || n == 4 || n == 8),
            (n == 1 ==> c == len),
            (n == 2 ==> c == len / 2),
            (n == 4 ==> c == len / 4),
            (n == 8 ==> c == len / 8),
    ;
}

/// With a supported width a byte has 8, 4, 2 or 1 fragments.
pub proof fn lemma_fragments(bits: u8)
    requires
        supported_bits(bits),
    ensures
        bits == 1 ==> fragments(bits) == 8,
        bits == 2 ==> fragments(bits) == 4,
        bits == 4 ==> fragments(bits) == 2,
        bits == 8 ==> fragments(bits) == 1,
        bits * fragments(bits) == 8,
{
}

/// The channels of the logical byte at the cursor lie inside the carrier
/// while there is room for one more byte.
pub proof fn lemma_rgb_slot(bits: u8, len: nat, index: int)
    requires
        supported_bits(bits),
        0 <= index <= len,
        index % fragments(bits) == 0,
        index / fragments(bits) < capacity(rgb(bits), len),
    ensures
        index + fragments(bits) <= len,
{
    lemma_fragments(bits);
    lemma_capacity(rgb(bits), len);
    if bits == 1 {
        assert(index + 8 <= len);
    } else if bits == 2 {
        assert(index + 4 <= len);
    } else if bits == 4 {
        assert(index + 2 <= len);
    } else {
        assert(index / 1 == index);
        assert(index + 1 <= len);
    }
}

/// A carrier in which the channels of one logical byte have each taken their
/// fragment, and no other channel has changed, is the carrier with that byte
/// written.
pub proof fn lemma_rgb_written(before: Seq<u8>, after: Seq<u8>, bits: u8, base: int, byte: u8)
    requires
        supported_bits(bits),
        0 <= base,
        base % fragments(bits) == 0,
        base + fragments(bits) <= before.len(),
        after.len() == before.len(),
        forall|p: int|
            0 <= p < before.len() ==> #[trigger] after[p] == if base <= p < base + fragments(bits) {
                (before[p] & !mask_value(bits)) | fragment(byte, bits, p - base)
            } else {
                before[p]
            },
    ensures
        after == embed_at(rgb(bits), before, base / fragments(bits), seq![byte]),
{
    lemma_fragments(bits);
    let n = fragments(bits);
    let target = embed_at(rgb(bits), before, base / n, seq![byte]);
    assert forall|p: int| 0 <= p < before.len() implies after[p] == target[p] by {
        if bits == 1 {
            assert((base <= p < base + 8) <==> p / 8 == base / 8);
            assert(base <= p < base + 8 ==> p % 8 == p - base);
        } else if bits == 2 {
            assert((base <= p < base + 4) <==> p / 4 == base / 4);
            assert(base <= p < base + 4 ==> p % 4 == p - base);
        } else if bits == 4 {
            assert((base <= p < base + 2) <==> p / 2 == base / 2);
            assert(base <= p < base + 2 ==> p % 2 == p - base);
        } else {
            assert(p / 1 == p && base / 1 == base);
            assert(p % 1 == 0);
        }
    }
    assert(after =~= target);
}

/// A fragment laid over the high bits of a channel is read back from the low
/// bits unchanged.
pub proof fn lemma_low_bits_kept(channel: u8, low: u8, mask: u8)
    ensures
        ((channel & !mask) | (low & mask)) & mask == low & mask,
{
    assert(((channel & !mask) | (low & mask)) & mask == low & mask) by (bit_vector);
}

/// Channels whose low bits are the fragments of a byte, in order, gather to
/// that byte.
pub proof fn lemma_assemble(carrier: Seq<u8>, base: int, bits: u8, byte: u8)
    requires
        supported_bits(bits),
        forall|p: int|
            base <= p < base + fragments(bits) ==> #[trigger] carrier[p] & mask_value(bits)
                == fragment(byte, bits, p - base),
    ensures
        assemble(carrier, base, bits, fragments(bits)) == byte,
{
    lemma_fragments(bits);
    lemma_mask_table();
    reveal_with_fuel(assemble, 9);
    let f0 = carrier[base + 0] & mask_value(bits);
    if bits == 8 {
        assert(f0 == (byte >> 0u8) & 0xFFu8);
        assert(0u8 | ((byte >> 0u8) & 0xFFu8) == byte) by (bit_vector);
    } else if bits == 4 {
        let f1 = carrier[base + 1] & mask_value(bits);
        assert(f0 == (byte >> 4u8) & 0x0Fu8);
        assert(f1 == (byte >> 0u8) & 0x0Fu8);
        assert((((0u8 << 4u32) | ((byte >> 4u8) & 0x0Fu8)) << 4u32) | ((byte >> 0u8) & 0x0Fu8)
            == byte) by (bit_vector);
    } else if bits == 2 {
        let f1 = carrier[base + 1] & mask_value(bits);
        let f2 = carrier[base + 2] & mask_value(bits);
        let f3 = carrier[base + 3] & mask_value(bits);
        assert(f0 == (byte >> 6u8) & 0x03u8);
        assert(f1 == (byte >> 4u8) & 0x03u8);
        assert(f2 == (byte >> 2u8) & 0x03u8);
        assert(f3 == (byte >> 0u8) & 0x03u8);
        assert((((((((0u8 << 2u32) | ((byte >> 6u8) & 0x03u8)) << 2u32) | ((byte >> 4u8) & 0x03u8))
            << 2u32) | ((byte >> 2u8) & 0x03u8)) << 2u32) | ((byte >> 0u8) & 0x03u8) == byte)
            by (bit_vector);
    } else {
        let f1 = carrier[base + 1] & mask_value(bits);
        let f2 = carrier[base + 2] & mask_value(bits);
        let f3 = carrier[base + 3] & mask_value(bits);
        let f4 = carrier[base + 4] & mask_value(bits);
        let f5 = carrier[base + 5] & mask_value(bits);
        let f6 = carrier[base + 6] & mask_value(bits);
        let f7 = carrier[base + 7] & mask_value(bits);
        assert(f0 == (byte >> 7u8) & 0x01u8);
        assert(f1 == (byte >> 6u8) & 0x01u8);
        assert(f2 == (byte >> 5u8) & 0x01u8);
        assert(f3 == (byte >> 4u8) & 0x01u8);
        assert(f4 == (byte >> 3u8) & 0x01u8);
        assert(f5 == (byte >> 2u8) & 0x01u8);
        assert(f6 == (byte >> 1u8) & 0x01u8);
        assert(f7 == (byte >> 0u8) & 0x01u8);
        assert((((((((((((((((0u8 << 1u32) | ((byte >> 7u8) & 0x01u8)) << 1u32) | ((byte >> 6u8)
            & 0x01u8)) << 1u32) | ((byte >> 5u8) & 0x01u8)) << 1u32) | ((byte >> 4u8) & 0x01u8))
            << 1u32) | ((byte >> 3u8) & 0x01u8)) << 1u32) | ((byte >> 2u8) & 0x01u8)) << 1u32) | ((
        byte >> 1u8) & 0x01u8)) << 1u32) | ((byte >> 0u8) & 0x01u8) == byte) by (bit_vector);
    }
}

/// Gathering reads only the channels from `base` to `base + count`.
pub proof fn lemma_assemble_local(a: Seq<u8>, b: Seq<u8>, base: int, bits: u8, count: int)
    requires
        forall|p: int| base <= p < base + count ==> a[p] == b[p],
    ensures
        assemble(a, base, bits, count) == assemble(b, base, bits, count),
    decreases count,
{
    if count > 0 {
        lemma_assemble_local(a, b, base, bits, count - 1);
    }
}

/// What was written is what is read: the logical bytes of a carrier into
/// which `bytes` have been embedded start with `bytes`.
pub proof fn lemma_extract_embed(algorithm: Algorithm, carrier: Seq<u8>, bytes: Seq<u8>)
    requires
        algorithm.supported(),
        bytes.len() <= capacity(algorithm, carrier.len()),
    ensures
        extract(algorithm, embed(algorithm, carrier, bytes)).len() == capacity(
            algorithm,
            carrier.len(),
        ),
        extract(algorithm, embed(algorithm, carrier, bytes)).subrange(0, bytes.len() as int)
            == bytes,
{
    let written = embed(algorithm, carrier, bytes);
    let stream = extract(algorithm, written);
    lemma_capacity(algorithm, carrier.len());
    assert forall|i: int| 0 <= i < bytes.len() implies stream[i] == bytes[i] by {
        match algorithm {
            Algorithm::Alpha => {
                assert((4 * i + 3) % 4 == 3 && (4 * i + 3) / 4 == i);
            },
            Algorithm::Rgb(config) => {
                let bits = config.bits_per_channel;
                let n = fragments(bits);
                lemma_fragments(bits);
                let base = i * n;
                assert(base + n <= carrier.len()) by (nonlinear_arith)
                    requires
                        base == i * n,
                        0 <= i < capacity(algorithm, carrier.len()),
                        capacity(algorithm, carrier.len()) * n <= carrier.len(),
                        n >= 1,
                ;
                assert forall|p: int| base <= p < base + n implies #[trigger] written[p]
                    & mask_value(bits) == fragment(bytes[i], bits, p - base) by {
                    let j = p - base;
                    if bits == 1 {
                        assert(p == i * 8 + j && p / 8 == i && p % 8 == j);
                    } else if bits == 2 {
                        assert(p == i * 4 + j && p / 4 == i && p % 4 == j);
                    } else if bits == 4 {
                        assert(p == i * 2 + j && p / 2 == i && p % 2 == j);
                    } else {
                        assert(i * 1 == i);
                        assert(p == i);
                        assert(p / 1 == p);
                        assert(p % 1 == 0);
                    }
                    assert(p / n == i && p % n == j);
                    lemma_low_bits_kept(
                        carrier[p],
                        bytes[i] >> ((8 - bits * (j + 1)) as u8),
                        mask_value(bits),
                    );
                }
                lemma_assemble(written, base, bits, bytes[i]);
            },
        }
    }
    assert(stream.subrange(0, bytes.len() as int) =~= bytes);
}

/// A carrier cut short holds the first logical bytes of the whole carrier:
/// as many as the channels that are left can carry.
pub proof fn lemma_extract_prefix(algorithm: Algorithm, carrier: Seq<u8>, kept: int)
    requires
        algorithm.supported(),
        0 <= kept <= carrier.len(),
    ensures
        capacity(algorithm, kept as nat) <= capacity(algorithm, carrier.len()),
        extract(algorithm, carrier.subrange(0, kept)) == extract(algorithm, carrier).subrange(
            0,
            capacity(algorithm, kept as nat) as int,
        ),
{
    let short = carrier.subrange(0, kept);
    lemma_capacity(algorithm, carrier.len());
    lemma_capacity(algorithm, kept as nat);
    let n = stride(algorithm);
    let few = capacity(algorithm, kept as nat) as int;
    let many = capacity(algorithm, carrier.len()) as int;
    assert(few <= many) by {
        match algorithm {
            Algorithm::Alpha => {},
            Algorithm::Rgb(config) => {
                let bits = config.bits_per_channel;
                lemma_fragments(bits);
                if bits == 1 {
                    assert(kept / 8 <= carrier.len() as int / 8);
                } else if bits == 2 {
                    assert(kept / 4 <= carrier.len() as int / 4);
                } else if bits == 4 {
                    assert(kept / 2 <= carrier.len() as int / 2);
                } else {
                    assert(kept / 1 == kept && carrier.len() as int / 1 == carrier.len());
                }
            },
        }
    }
    assert forall|i: int| 0 <= i < few implies logical_byte(algorithm, short, i) == logical_byte(
        algorithm,
        carrier,
        i,
    ) by {
        match algorithm {
            Algorithm::Alpha => {},
            Algorithm::Rgb(config) => {
                let bits = config.bits_per_channel;
                assert(i * n + n <= kept) by (nonlinear_arith)
                    requires
                        0 <= i < few,
                        few * n <= kept,
                        n >= 1,
                ;
                lemma_assemble_local(short, carrier, i * n, bits, n);
            },
        }
    }
    assert(extract(algorithm, short) =~= extract(algorithm, carrier).subrange(0, few));
}

} // verus!
