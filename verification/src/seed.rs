//! Per-stream seeds derived from one master seed.

use vstd::prelude::*;

verus! {

/// Multiplier that spreads connection ids before mixing.
pub const CONNECTION_FACTOR: u64 = 0x9E37_79B9_7F4A_7C15;

/// Multiplier that spreads direction tags, and the first mixing multiplier.
pub const DIRECTION_FACTOR: u64 = 0xBF58_476D_1CE4_E5B9;

/// The second mixing multiplier.
pub const FINAL_FACTOR: u64 = 0x94D0_49BB_1331_11EB;

/// The three inputs folded into one word.
pub open spec fn combined(master_seed: u64, conn_id: u64, direction_tag: u64) -> u64 {
    master_seed ^ conn_id.wrapping_mul(CONNECTION_FACTOR) ^ direction_tag.wrapping_mul(
        DIRECTION_FACTOR,
    )
}

/// The SplitMix64 finalizer.
pub open spec fn splitmix(x: u64) -> u64 {
    let y = (x ^ (x >> 30)).wrapping_mul(DIRECTION_FACTOR);
    let z = (y ^ (y >> 27)).wrapping_mul(FINAL_FACTOR);
    z ^ (z >> 31)
}

/// The seed of one direction of one connection.
pub open spec fn stream_seed(master_seed: u64, conn_id: u64, direction_tag: u64) -> u64 {
    splitmix(combined(master_seed, conn_id, direction_tag))
}

/// Derive a per-connection, per-direction seed from a master seed + connection id.
///
/// Uses SplitMix64-style mixing so nearby (master, conn_id, direction) tuples
/// still produce well-separated seeds. Each direction of each connection gets
/// its own RNG stream, so a fault sequence is fully reproducible from the master
/// seed regardless of how many connections happen in parallel.
pub fn derive_seed(master_seed: u64, conn_id: u64, direction_tag: u64) -> (seed: u64)
    ensures
        seed == stream_seed(master_seed, conn_id, direction_tag),
{
    let mut x: u64 = master_seed ^ conn_id.wrapping_mul(CONNECTION_FACTOR)
        ^ direction_tag.wrapping_mul(DIRECTION_FACTOR);
    x = (x ^ (x >> 30)).wrapping_mul(DIRECTION_FACTOR);
    x = (x ^ (x >> 27)).wrapping_mul(FINAL_FACTOR);
    x ^ (x >> 31)
}

/// A factor with an inverse modulo 2^64 can be divided out again.
proof fn lemma_factor_is_invertible(x: u64, factor: u64, inverse: u64)
    requires
        (factor as nat * inverse as nat) % 0x1_0000_0000_0000_0000 == 1,
    ensures
        x.wrapping_mul(factor).wrapping_mul(inverse) == x,
{
    let m: int = 0x1_0000_0000_0000_0000;
    let xf: int = x as int * factor as int;
    let fi: int = factor as int * inverse as int;
    vstd::arithmetic::div_mod::lemma_mul_mod_noop_left(xf, inverse as int, m);
    assert((xf % m) * (inverse as int) % m == xf * (inverse as int) % m);
    assert(xf * (inverse as int) == x as int * fi) by (nonlinear_arith)
        requires
            xf == x as int * factor as int,
            fi == factor as int * inverse as int,
    ;
    vstd::arithmetic::div_mod::lemma_mul_mod_noop_right(x as int, fi, m);
    assert(x as int * (fi % m) % m == x as int * fi % m);
    assert(x.wrapping_mul(factor) as int == xf % m);
}

/// Multiplying by any of the three factors keeps different words different.
proof fn lemma_factors_keep_apart(x: u64, y: u64)
    ensures
        x.wrapping_mul(CONNECTION_FACTOR) == y.wrapping_mul(CONNECTION_FACTOR) ==> x == y,
        x.wrapping_mul(DIRECTION_FACTOR) == y.wrapping_mul(DIRECTION_FACTOR) ==> x == y,
        x.wrapping_mul(FINAL_FACTOR) == y.wrapping_mul(FINAL_FACTOR) ==> x == y,
{
    let a: u64 = 0xf1de83e19937733d;
    let b: u64 = 0x96de1b173f119089;
    let c: u64 = 0x319642b2d24d8ec3;
    assert((CONNECTION_FACTOR as nat * 0xf1de83e19937733d) % 0x1_0000_0000_0000_0000 == 1)
        by (nonlinear_arith);
    assert((DIRECTION_FACTOR as nat * 0x96de1b173f119089) % 0x1_0000_0000_0000_0000 == 1)
        by (nonlinear_arith);
    assert((FINAL_FACTOR as nat * 0x319642b2d24d8ec3) % 0x1_0000_0000_0000_0000 == 1)
        by (nonlinear_arith);
    lemma_factor_is_invertible(x, CONNECTION_FACTOR, a);
    lemma_factor_is_invertible(y, CONNECTION_FACTOR, a);
    lemma_factor_is_invertible(x, DIRECTION_FACTOR, b);
    lemma_factor_is_invertible(y, DIRECTION_FACTOR, b);
    lemma_factor_is_invertible(x, FINAL_FACTOR, c);
    lemma_factor_is_invertible(y, FINAL_FACTOR, c);
}

/// Mixing loses nothing: different words have different mixes.
pub proof fn law_splitmix_is_injective(x: u64, y: u64)
    requires
        splitmix(x) == splitmix(y),
    ensures
        x == y,
{
    let x1 = (x ^ (x >> 30)).wrapping_mul(DIRECTION_FACTOR);
    let y1 = (y ^ (y >> 30)).wrapping_mul(DIRECTION_FACTOR);
    let x2 = (x1 ^ (x1 >> 27)).wrapping_mul(FINAL_FACTOR);
    let y2 = (y1 ^ (y1 >> 27)).wrapping_mul(FINAL_FACTOR);
    assert(x2 ^ (x2 >> 31) == y2 ^ (y2 >> 31) ==> x2 == y2) by (bit_vector);
    lemma_factors_keep_apart(x1 ^ (x1 >> 27), y1 ^ (y1 >> 27));
    assert(x1 ^ (x1 >> 27) == y1 ^ (y1 >> 27) ==> x1 == y1) by (bit_vector);
    lemma_factors_keep_apart(x ^ (x >> 30), y ^ (y >> 30));
    assert(x ^ (x >> 30) == y ^ (y >> 30) ==> x == y) by (bit_vector);
}

/// A seed can be traced back to its three inputs: undoing the mixing step by step,
/// with the inverses of the two multipliers modulo 2^64, leads to the master seed
/// combined with the spread connection id and the spread direction tag.
pub proof fn law_seed_can_be_traced_back(master_seed: u64, conn_id: u64, direction_tag: u64)
    ensures
        ({
            let s = stream_seed(master_seed, conn_id, direction_tag);
            let z = s ^ (s >> 31) ^ (s >> 62);
            let y = z.wrapping_mul(0x3196_42b2_d24d_8ec3);
            let x = y ^ (y >> 27) ^ (y >> 54);
            let w = x.wrapping_mul(0x96de_1b17_3f11_9089);
            w ^ (w >> 30) ^ (w >> 60) == master_seed ^ conn_id.wrapping_mul(0x9E37_79B9_7F4A_7C15)
                ^ direction_tag.wrapping_mul(0xBF58_476D_1CE4_E5B9)
        }),
{
    let a = combined(master_seed, conn_id, direction_tag);
    let b = a ^ (a >> 30);
    let c = b.wrapping_mul(DIRECTION_FACTOR);
    let d = c ^ (c >> 27);
    let e = d.wrapping_mul(FINAL_FACTOR);
    let s = e ^ (e >> 31);
    assert((DIRECTION_FACTOR as nat * 0x96de1b173f119089) % 0x1_0000_0000_0000_0000 == 1)
        by (nonlinear_arith);
    assert((FINAL_FACTOR as nat * 0x319642b2d24d8ec3) % 0x1_0000_0000_0000_0000 == 1)
        by (nonlinear_arith);
    lemma_factor_is_invertible(b, DIRECTION_FACTOR, 0x96de_1b17_3f11_9089);
    lemma_factor_is_invertible(d, FINAL_FACTOR, 0x3196_42b2_d24d_8ec3);
    assert(s ^ (s >> 31) ^ (s >> 62) == e) by (bit_vector)
        requires
            s == e ^ (e >> 31),
    ;
    assert(d ^ (d >> 27) ^ (d >> 54) == c) by (bit_vector)
        requires
            d == c ^ (c >> 27),
    ;
    assert(b ^ (b >> 30) ^ (b >> 60) == a) by (bit_vector)
        requires
            b == a ^ (a >> 30),
    ;
}

/// Runs under different master seeds give one stream different seeds.
pub proof fn law_master_seeds_are_separated(m1: u64, m2: u64, conn_id: u64, tag: u64)
    requires
        m1 != m2,
    ensures
        stream_seed(m1, conn_id, tag) != stream_seed(m2, conn_id, tag),
{
    let c = conn_id.wrapping_mul(CONNECTION_FACTOR);
    let t = tag.wrapping_mul(DIRECTION_FACTOR);
    if splitmix(combined(m1, conn_id, tag)) == splitmix(combined(m2, conn_id, tag)) {
        law_splitmix_is_injective(combined(m1, conn_id, tag), combined(m2, conn_id, tag));
        assert(m1 ^ c ^ t == m2 ^ c ^ t ==> m1 == m2) by (bit_vector);
    }
}

/// Different connections get different seeds for the same direction.
pub proof fn law_connections_are_separated(master: u64, c1: u64, c2: u64, tag: u64)
    requires
        c1 != c2,
    ensures
        stream_seed(master, c1, tag) != stream_seed(master, c2, tag),
{
    let a = c1.wrapping_mul(CONNECTION_FACTOR);
    let b = c2.wrapping_mul(CONNECTION_FACTOR);
    let t = tag.wrapping_mul(DIRECTION_FACTOR);
    if splitmix(combined(master, c1, tag)) == splitmix(combined(master, c2, tag)) {
        law_splitmix_is_injective(combined(master, c1, tag), combined(master, c2, tag));
        assert(master ^ a ^ t == master ^ b ^ t ==> a == b) by (bit_vector);
        lemma_factors_keep_apart(c1, c2);
    }
}

/// The directions of one connection get different seeds.
pub proof fn law_directions_are_separated(master: u64, conn_id: u64, t1: u64, t2: u64)
    requires
        t1 != t2,
    ensures
        stream_seed(master, conn_id, t1) != stream_seed(master, conn_id, t2),
{
    let c = conn_id.wrapping_mul(CONNECTION_FACTOR);
    let a = t1.wrapping_mul(DIRECTION_FACTOR);
    let b = t2.wrapping_mul(DIRECTION_FACTOR);
    if splitmix(combined(master, conn_id, t1)) == splitmix(combined(master, conn_id, t2)) {
        law_splitmix_is_injective(combined(master, conn_id, t1), combined(master, conn_id, t2));
        assert(master ^ c ^ a == master ^ c ^ b ==> a == b) by (bit_vector);
        lemma_factors_keep_apart(t1, t2);
    }
}

/// Within one run, two streams share a seed only where their spread ids and tags
/// cancel each other out.
pub proof fn law_streams_are_separated(master: u64, c1: u64, t1: u64, c2: u64, t2: u64)
    requires
        c1.wrapping_mul(CONNECTION_FACTOR) ^ c2.wrapping_mul(CONNECTION_FACTOR)
            != t1.wrapping_mul(DIRECTION_FACTOR) ^ t2.wrapping_mul(DIRECTION_FACTOR),
    ensures
        stream_seed(master, c1, t1) != stream_seed(master, c2, t2),
{
    let a1 = c1.wrapping_mul(CONNECTION_FACTOR);
    let a2 = c2.wrapping_mul(CONNECTION_FACTOR);
    let b1 = t1.wrapping_mul(DIRECTION_FACTOR);
    let b2 = t2.wrapping_mul(DIRECTION_FACTOR);
    if splitmix(combined(master, c1, t1)) == splitmix(combined(master, c2, t2)) {
        law_splitmix_is_injective(combined(master, c1, t1), combined(master, c2, t2));
        assert(master ^ a1 ^ b1 == master ^ a2 ^ b2 ==> a1 ^ a2 == b1 ^ b2) by (bit_vector);
    }
}

} // verus!
