//! Single bits of byte strings.
//!
//! Bit `p` of a byte string is bit `p % 8`, counted from the least significant, of
//! byte `p / 8`.

use vstd::arithmetic::power2::pow2;
use vstd::prelude::*;

verus! {

/// The value of bit `p`.
pub open spec fn bit_at(s: Seq<u8>, p: int) -> bool {
    (s[p / 8] >> ((p % 8) as u8)) & 1 == 1
}

/// `s` with bit `p` inverted.
pub open spec fn flip_bit(s: Seq<u8>, p: int) -> Seq<u8> {
    s.update(p / 8, s[p / 8] ^ (1u8 << ((p % 8) as u8)))
}

/// `s` with the bits at `positions` inverted, one after the other.
pub open spec fn flip_bits(s: Seq<u8>, positions: Seq<int>) -> Seq<u8>
    decreases positions.len(),
{
    if positions.len() == 0 {
        s
    } else {
        flip_bit(flip_bits(s, positions.drop_last()), positions.last())
    }
}

/// The positions at which `a` and `b`, of equal length, hold different bits.
pub open spec fn differing_bits(a: Seq<u8>, b: Seq<u8>) -> Set<int> {
    Set::new(|p: int| 0 <= p < 8 * a.len() && bit_at(a, p) != bit_at(b, p))
}

/// The number of bits in which `a` and `b` differ.
pub open spec fn hamming_distance(a: Seq<u8>, b: Seq<u8>) -> nat {
    differing_bits(a, b).len()
}

/// Every position names a bit of `s`.
pub open spec fn positions_within(positions: Seq<int>, s: Seq<u8>) -> bool {
    forall|i: int| 0 <= i < positions.len() ==> 0 <= #[trigger] positions[i] < 8 * s.len()
}

/// Bit `p` is the binary digit of weight 2^(p mod 8) of byte `p / 8`.
pub proof fn law_bits_are_binary_digits(s: Seq<u8>, p: int)
    requires
        0 <= p < 8 * s.len(),
    ensures
        bit_at(s, p) <==> (s[p / 8] as nat / pow2((p % 8) as nat)) % 2 == 1,
{
    let b = s[p / 8];
    let j = (p % 8) as u8;
    vstd::bits::lemma_u8_shr_is_div(b, j);
    let shifted = b >> j;
    assert(shifted & 1 == shifted % 2) by (bit_vector);
}

/// Byte strings of equal length that hold the same bits are equal.
pub proof fn law_bits_make_up_the_bytes(a: Seq<u8>, b: Seq<u8>)
    requires
        a.len() == b.len(),
        forall|p: int| 0 <= p < 8 * a.len() ==> #[trigger] bit_at(a, p) == bit_at(b, p),
    ensures
        a == b,
{
    assert forall|k: int| 0 <= k < a.len() implies a[k] == b[k] by {
        let (x, y) = (a[k], b[k]);
        assert(bit_at(a, 8 * k) == bit_at(b, 8 * k));
        assert(bit_at(a, 8 * k + 1) == bit_at(b, 8 * k + 1));
        assert(bit_at(a, 8 * k + 2) == bit_at(b, 8 * k + 2));
        assert(bit_at(a, 8 * k + 3) == bit_at(b, 8 * k + 3));
        assert(bit_at(a, 8 * k + 4) == bit_at(b, 8 * k + 4));
        assert(bit_at(a, 8 * k + 5) == bit_at(b, 8 * k + 5));
        assert(bit_at(a, 8 * k + 6) == bit_at(b, 8 * k + 6));
        assert(bit_at(a, 8 * k + 7) == bit_at(b, 8 * k + 7));
        assert(x == y) by (bit_vector)
            requires
                ((x >> 0u8) & 1 == 1) == ((y >> 0u8) & 1 == 1),
                ((x >> 1u8) & 1 == 1) == ((y >> 1u8) & 1 == 1),
                ((x >> 2u8) & 1 == 1) == ((y >> 2u8) & 1 == 1),
                ((x >> 3u8) & 1 == 1) == ((y >> 3u8) & 1 == 1),
                ((x >> 4u8) & 1 == 1) == ((y >> 4u8) & 1 == 1),
                ((x >> 5u8) & 1 == 1) == ((y >> 5u8) & 1 == 1),
                ((x >> 6u8) & 1 == 1) == ((y >> 6u8) & 1 == 1),
                ((x >> 7u8) & 1 == 1) == ((y >> 7u8) & 1 == 1),
        ;
    }
    assert(a =~= b);
}

/// The count of matching bits is the size of the set of matching positions.
pub proof fn law_matching_bits_are_counted(a: Seq<u8>, b: Seq<u8>, n: int)
    ensures
        Set::new(|p: int| 0 <= p < n && bit_at(a, p) == bit_at(b, p)).finite(),
        matching_below(a, b, n) == Set::new(
            |p: int| 0 <= p < n && bit_at(a, p) == bit_at(b, p),
        ).len(),
    decreases n,
{
    let matching = Set::new(|p: int| 0 <= p < n && bit_at(a, p) == bit_at(b, p));
    if n <= 0 {
        assert(matching =~= Set::empty());
    } else {
        law_matching_bits_are_counted(a, b, n - 1);
        let fewer = Set::new(|p: int| 0 <= p < n - 1 && bit_at(a, p) == bit_at(b, p));
        if bit_at(a, n - 1) == bit_at(b, n - 1) {
            assert(matching =~= fewer.insert(n - 1));
        } else {
            assert(matching =~= fewer);
        }
    }
}

/// The Hamming distance counts the positions at which the bits differ.
pub proof fn law_distance_counts_differing_bits(a: Seq<u8>, b: Seq<u8>, p: int)
    ensures
        differing_bits(a, b).contains(p) <==> 0 <= p < 8 * a.len() && bit_at(a, p) != bit_at(b, p),
        hamming_distance(a, b) == Set::new(
            |q: int| 0 <= q < 8 * a.len() && bit_at(a, q) != bit_at(b, q),
        ).len(),
{
    assert(differing_bits(a, b) =~= Set::new(
        |q: int| 0 <= q < 8 * a.len() && bit_at(a, q) != bit_at(b, q),
    ));
}

/// Inverting a bit changes that bit and no other.
pub proof fn law_flip_bit_is_local(s: Seq<u8>, p: int, q: int)
    requires
        0 <= p < 8 * s.len(),
        0 <= q < 8 * s.len(),
    ensures
        bit_at(flip_bit(s, p), q) == (bit_at(s, q) != (p == q)),
        flip_bit(s, p).len() == s.len(),
{
    let i = (p % 8) as u8;
    let j = (q % 8) as u8;
    let b = s[p / 8];
    assert(i < 8 && j < 8 ==> ((((b ^ (1u8 << i)) >> j) & 1 == 1) == (((b >> j) & 1 == 1) != (i
        == j)))) by (bit_vector);
}

/// Inverting the same bit twice restores the bytes.
pub proof fn law_flip_bit_undoes_itself(s: Seq<u8>, p: int)
    requires
        0 <= p < 8 * s.len(),
    ensures
        flip_bit(flip_bit(s, p), p) == s,
{
    let i = (p % 8) as u8;
    let b = s[p / 8];
    assert((b ^ (1u8 << i)) ^ (1u8 << i) == b) by (bit_vector);
    assert(flip_bit(flip_bit(s, p), p) =~= s);
}

/// Inverting bits keeps the length, and with no position repeated it changes the
/// bits at those positions and no others.
pub proof fn law_flip_bits_changes_exactly(s: Seq<u8>, positions: Seq<int>)
    requires
        positions_within(positions, s),
        positions.no_duplicates(),
    ensures
        flip_bits(s, positions).len() == s.len(),
        differing_bits(s, flip_bits(s, positions)) == positions.to_set(),
        hamming_distance(s, flip_bits(s, positions)) == positions.len(),
    decreases positions.len(),
{
    let out = flip_bits(s, positions);
    if positions.len() > 0 {
        let init = positions.drop_last();
        let last = positions.last();
        assert(positions_within(init, s)) by {
            assert forall|i: int| 0 <= i < init.len() implies 0 <= #[trigger] init[i] < 8
                * s.len() by {
                assert(init[i] == positions[i]);
            }
        }
        law_flip_bits_changes_exactly(s, init);
        let mid = flip_bits(s, init);
        assert(0 <= last < 8 * s.len());
        assert forall|p: int| 0 <= p < 8 * s.len() implies (bit_at(s, p) != bit_at(out, p))
            == positions.contains(p) by {
            law_flip_bit_is_local(mid, last, p);
            assert(differing_bits(s, mid).contains(p) == init.to_set().contains(p));
            assert(init.to_set().contains(p) == init.contains(p));
            if init.contains(p) {
                let i = init.index_of(p);
                assert(positions[i] == p);
            }
            if positions.contains(p) && p != last {
                let i = positions.index_of(p);
                assert(init[i] == p);
            }
            if p == last {
                assert(positions[positions.len() - 1] == p);
                if init.contains(p) {
                    let i = init.index_of(p);
                    assert(positions[i] == positions[positions.len() - 1]);
                }
            }
        }
    } else {
        assert(out == s);
    }
    assert forall|p: int| differing_bits(s, out).contains(p) == positions.to_set().contains(p) by {
        if positions.contains(p) {
            let i = positions.index_of(p);
            assert(0 <= positions[i] < 8 * s.len());
        }
    }
    assert(differing_bits(s, out) =~= positions.to_set());
    positions.unique_seq_to_set();
}

/// Whether bit `p` differs between `a` and `b`.
pub fn bit_differs(a: &Vec<u8>, b: &Vec<u8>, p: usize) -> (r: bool)
    requires
        p < 8 * a@.len(),
        a@.len() == b@.len(),
    ensures
        r == (bit_at(a@, p as int) != bit_at(b@, p as int)),
{
    let shift: u8 = (p % 8) as u8;
    ((a[p / 8] >> shift) & 1 == 1) != ((b[p / 8] >> shift) & 1 == 1)
}

/// Inverts bit `p`.
pub fn invert_bit(data: &mut Vec<u8>, p: usize)
    requires
        p < 8 * old(data)@.len(),
    ensures
        final(data)@ == flip_bit(old(data)@, p as int),
{
    let byte: usize = p / 8;
    let shift: u8 = (p % 8) as u8;
    let inverted: u8 = data[byte] ^ (1u8 << shift);
    data[byte] = inverted;
}

/// How many of the positions below `n` hold the same bit in `a` and `b`.
pub open spec fn matching_below(a: Seq<u8>, b: Seq<u8>, n: int) -> nat
    decreases n,
{
    if n <= 0 {
        0
    } else if bit_at(a, n - 1) == bit_at(b, n - 1) {
        matching_below(a, b, n - 1) + 1
    } else {
        matching_below(a, b, n - 1)
    }
}

/// The number of ones in a byte, as the sum of its bits.
spec fn ones(x: u8) -> int {
    (x & 1) + ((x >> 1) & 1) + ((x >> 2) & 1) + ((x >> 3) & 1) + ((x >> 4) & 1) + ((x >> 5) & 1) + ((
    x >> 6) & 1) + ((x >> 7) & 1)
}

/// The number of ones in a byte: the bits are added up in pairs, then in fours,
/// then all together.
fn count_ones(x: u8) -> (n: u8)
    ensures
        n == ones(x),
        n <= 8,
{
    assert(x >= (x >> 1) & 0x55) by (bit_vector);
    let pairs: u8 = x - ((x >> 1) & 0x55);
    assert((pairs & 0x33) + ((pairs >> 2) & 0x33) < 256) by (bit_vector);
    let fours: u8 = (pairs & 0x33) + ((pairs >> 2) & 0x33);
    assert(fours + (fours >> 4) < 256) by (bit_vector)
        requires
            fours == (pairs & 0x33) + ((pairs >> 2) & 0x33),
    ;
    let folded: u8 = fours + (fours >> 4);
    let n: u8 = folded & 0x0F;
    assert(n == (x & 1) + ((x >> 1) & 1) + ((x >> 2) & 1) + ((x >> 3) & 1) + ((x >> 4) & 1) + ((x
        >> 5) & 1) + ((x >> 6) & 1) + ((x >> 7) & 1) && n <= 8) by (bit_vector)
        requires
            pairs == x - ((x >> 1) & 0x55),
            fours == (pairs & 0x33) + ((pairs >> 2) & 0x33),
            folded == fours + (fours >> 4),
            n == folded & 0x0F,
    ;
    n
}

/// Bit `j` of byte `k` matches exactly if it is zero in the exclusive or.
proof fn lemma_matching_bit(a: Seq<u8>, b: Seq<u8>, k: int, j: u8)
    requires
        j < 8,
    ensures
        bit_at(a, 8 * k + j) == bit_at(b, 8 * k + j) <==> ((a[k] ^ b[k]) >> j) & 1 == 0,
        ((a[k] ^ b[k]) >> j) & 1 <= 1,
{
    let x = a[k];
    let y = b[k];
    assert(((x >> j) & 1 == 1) == ((y >> j) & 1 == 1) <==> ((x ^ y) >> j) & 1 == 0) by (bit_vector);
    assert(((x ^ y) >> j) & 1 <= 1) by (bit_vector);
    assert((8 * k + j) / 8 == k && (8 * k + j) % 8 == j as int);
}

/// Of the eight bits of a byte, those match that are zero in the exclusive or.
#[verifier::rlimit(30)]
proof fn lemma_matching_in_byte(a: Seq<u8>, b: Seq<u8>, k: int)
    requires
        0 <= k < a.len(),
        a.len() == b.len(),
    ensures
        matching_below(a, b, 8 * k + 8) == matching_below(a, b, 8 * k) + 8 - ones(a[k] ^ b[k]),
{
    let d = a[k] ^ b[k];
    assert(d >> 0u8 == d) by (bit_vector);
    lemma_matching_bit(a, b, k, 0);
    lemma_matching_bit(a, b, k, 1);
    lemma_matching_bit(a, b, k, 2);
    lemma_matching_bit(a, b, k, 3);
    lemma_matching_bit(a, b, k, 4);
    lemma_matching_bit(a, b, k, 5);
    lemma_matching_bit(a, b, k, 6);
    lemma_matching_bit(a, b, k, 7);
    reveal_with_fuel(matching_below, 9);
}

/// The position below `limit` that holds the same bit in `a` and `b` and has `rank`
/// such positions below it.
pub fn nth_matching_bit(a: &Vec<u8>, b: &Vec<u8>, rank: usize, limit: usize) -> (p: usize)
    requires
        a@.len() == b@.len(),
        limit <= 8 * a@.len(),
        rank < matching_below(a@, b@, limit as int),
    ensures
        p < limit,
        bit_at(a@, p as int) == bit_at(b@, p as int),
        matching_below(a@, b@, p as int) == rank,
{
    let mut left: usize = rank;
    let mut p: usize = 0;
    while p < limit
        invariant
            a@.len() == b@.len(),
            p <= limit <= 8 * a@.len(),
            matching_below(a@, b@, p as int) + left == rank,
        decreases limit - p,
    {
        let whole_byte: bool = p % 8 == 0 && limit - p >= 8;
        let matching: usize = if whole_byte {
            8 - count_ones(a[p / 8] ^ b[p / 8]) as usize
        } else {
            0
        };
        if whole_byte && matching <= left {
            proof {
                lemma_matching_in_byte(a@, b@, p as int / 8);
            }
            left -= matching;
            p += 8;
        } else if bit_differs(a, b, p) {
            p += 1;
        } else if left == 0 {
            return p;
        } else {
            left -= 1;
            p += 1;
        }
    }
    p
}

} // verus!
