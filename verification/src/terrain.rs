use vstd::prelude::*;

use vstd::string::StringSliceAdditionalSpecFns;

use crate::geometry::{BlockType, Vec3i};

verus! {

/// SplitMix64-style finalizer, written over the mathematical bit operations.
pub open spec fn mix_spec(value: u64) -> u64 {
    let a = value ^ (value >> 30u64);
    let b = (a as int * 0xBF58_476D_1CE4_E5B9int) % 0x1_0000_0000_0000_0000int;
    let b = b as u64;
    let c = b ^ (b >> 27u64);
    let d = ((c as int * 0x94D0_49BB_1331_11EBint) % 0x1_0000_0000_0000_0000int) as u64;
    d ^ (d >> 31u64)
}

/// Avalanche mix of a 64-bit value.
pub fn mix_u64(value: u64) -> (r: u64)
    ensures
        r == mix_spec(value),
{
    let a = value ^ (value >> 30u64);
    let b = a.wrapping_mul(0xBF58_476D_1CE4_E5B9);
    let c = b ^ (b >> 27u64);
    let d = c.wrapping_mul(0x94D0_49BB_1331_11EB);
    d ^ (d >> 31u64)
}


pub open spec fn gradient_hash_spec(seed: u64, x: i64, y: i64, z: i64) -> u64 {
    let h0 = seed ^ 0x9E37_79B9_7F4A_7C15u64;
    let h1 = h0 ^ mix_spec(x as u64);
    let h2 = rotl17_spec(h1) ^ mix_spec(y as u64);
    let h3 = rotl17_spec(h2) ^ mix_spec(z as u64);
    mix_spec(h3)
}

/// Rotate left by 17 bits.
pub open spec fn rotl17_spec(v: u64) -> u64 {
    (v << 17u64) | (v >> 47u64)
}

fn rotl17(v: u64) -> (r: u64)
    ensures
        r == rotl17_spec(v),
{
    (v << 17u64) | (v >> 47u64)
}

/// Hash of a lattice corner for the cave noise.
pub fn gradient_hash(seed: u64, x: i64, y: i64, z: i64) -> (r: u64)
    ensures
        r == gradient_hash_spec(seed, x, y, z),
{
    let mut hash = seed ^ 0x9E37_79B9_7F4A_7C15u64;
    hash = hash ^ mix_u64(x as u64);
    hash = rotl17(hash) ^ mix_u64(y as u64);
    hash = rotl17(hash) ^ mix_u64(z as u64);
    mix_u64(hash)
}

/// FNV-1a over the bytes, folded left.
pub open spec fn fnv1a_spec(bytes: Seq<u8>) -> u64
    decreases bytes.len(),
{
    if bytes.len() == 0 {
        0xCBF2_9CE4_8422_2325u64
    } else {
        let h = fnv1a_spec(bytes.drop_last()) ^ (bytes.last() as u64);
        ((h as int * 0x0000_0100_0000_01B3int) % 0x1_0000_0000_0000_0000int) as u64
    }
}

/// Numeric seed of a terrain seed text: FNV-1a of its UTF-8 bytes, then mixed.
pub fn seed_to_u64(seed: &str) -> (r: u64)
    ensures
        r == mix_spec(fnv1a_spec(seed.spec_bytes())),
{
    let bytes = seed.as_bytes();
    let mut hash: u64 = 0xCBF2_9CE4_8422_2325;
    let mut i: usize = 0;
    while i < bytes.len()
        invariant
            i <= bytes@.len(),
            bytes@ == seed.spec_bytes(),
            hash == fnv1a_spec(bytes@.subrange(0, i as int)),
        decreases bytes@.len() - i,
    {
        proof {
            assert(bytes@.subrange(0, i + 1).drop_last() =~= bytes@.subrange(0, i as int));
        }
        hash = hash ^ (bytes[i] as u64);
        hash = hash.wrapping_mul(0x0000_0100_0000_01B3);
        i = i + 1;
    }
    proof {
        assert(bytes@.subrange(0, bytes@.len() as int) =~= bytes@);
    }
    mix_u64(hash)
}

/// The always-open room around the origin: |x|, |y| <= 3 and |z| <= 1.
pub open spec fn is_within_starter_room_spec(p: Vec3i) -> bool {
    -3 <= p.x <= 3 && -3 <= p.y <= 3 && -1 <= p.z <= 1
}

/// The layers where caves may open: |z| <= 1.
pub open spec fn is_within_playable_noise_band_spec(p: Vec3i) -> bool {
    -1 <= p.z <= 1
}

pub fn is_within_starter_room(p: Vec3i) -> (r: bool)
    ensures
        r == is_within_starter_room_spec(p),
{
    -3 <= p.x && p.x <= 3 && -3 <= p.y && p.y <= 3 && -1 <= p.z && p.z <= 1
}

pub fn is_within_playable_noise_band(p: Vec3i) -> (r: bool)
    ensures
        r == is_within_playable_noise_band_spec(p),
{
    -1 <= p.z && p.z <= 1
}

/// Generated block of one voxel: air inside the starter room, or inside
/// the noise band where the cave field is open; solid stone elsewhere.
pub open spec fn voxel_block_spec(p: Vec3i, cave_open: bool) -> BlockType {
    if is_within_starter_room_spec(p) || (is_within_playable_noise_band_spec(p) && cave_open) {
        BlockType::Air
    } else {
        BlockType::SolidStone
    }
}

/// Caves are carved only in the playable band: a voxel more than one level
/// from level 0 is solid stone whatever the cave field says; the starter
/// room (|x|, |y| <= 3, |z| <= 1) is always air; elsewhere in the band the
/// voxel is air exactly when the cave field is open there.
pub proof fn lemma_caves_only_in_band(p: Vec3i, cave_open: bool)
    ensures
        p.z > 1 || p.z < -1 ==> voxel_block_spec(p, cave_open) == BlockType::SolidStone,
        -3 <= p.x <= 3 && -3 <= p.y <= 3 && -1 <= p.z <= 1 ==> voxel_block_spec(p, cave_open) == BlockType::Air,
        -1 <= p.z <= 1 && !(-3 <= p.x <= 3 && -3 <= p.y <= 3) ==> (voxel_block_spec(p, cave_open)
            == BlockType::Air <==> cave_open),
        voxel_block_spec(p, cave_open) == BlockType::Air || voxel_block_spec(p, cave_open)
            == BlockType::SolidStone,
{
}

pub fn voxel_block(p: Vec3i, cave_open: bool) -> (r: BlockType)
    ensures
        r == voxel_block_spec(p, cave_open),
{
    if is_within_starter_room(p) || (is_within_playable_noise_band(p) && cave_open) {
        BlockType::Air
    } else {
        BlockType::SolidStone
    }
}

} // verus!
