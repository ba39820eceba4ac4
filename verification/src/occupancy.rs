use vstd::prelude::*;

use crate::bits::{lemma_pop_count_le_64, lemma_pop_count_pos, pop_count};
use crate::board::Bitboard;
use vstd::arithmetic::power2::{
    lemma2_to64, lemma_pow2_strictly_increases, lemma_pow2_unfold, pow2,
};
use vstd::bits::{lemma_u64_pow2_no_overflow, lemma_u64_shl_is_mul};

verus! {

/// The compact image of `bb` under `mask`: the bits of `bb` at the set
/// positions of `mask`, packed into the low bits of the result in ascending
/// order of position (a parallel bit gather).
pub open spec fn gather_bits(bb: u64, mask: u64) -> nat
    decreases mask,
{
    if mask == 0 {
        0
    } else if mask % 2 == 1 {
        (bb % 2) as nat + 2 * gather_bits(bb / 2, mask / 2)
    } else {
        gather_bits(bb / 2, mask / 2)
    }
}

/// The low bits of `index` scattered to the set positions of `mask`, in
/// ascending order of position (a parallel bit scatter); no bit outside
/// `mask` is ever set.
pub open spec fn scatter_bits(index: u64, mask: u64) -> nat
    decreases mask,
{
    if mask == 0 {
        0
    } else if mask % 2 == 1 {
        (index % 2) as nat + 2 * scatter_bits(index / 2, mask / 2)
    } else {
        2 * scatter_bits(index, mask / 2)
    }
}

/// A scattered value sets bits only where `mask` does, so it never exceeds
/// `mask` itself.
pub proof fn lemma_scatter_le_mask(index: u64, mask: u64)
    ensures
        scatter_bits(index, mask) <= mask,
    decreases mask,
{
    if mask != 0 {
        if mask % 2 == 1 {
            lemma_scatter_le_mask(index / 2, mask / 2);
        } else {
            lemma_scatter_le_mask(index, mask / 2);
        }
    }
}

/// A gathered value fits in one bit per set bit of the mask.
pub proof fn lemma_gather_bound(bb: u64, mask: u64)
    ensures
        gather_bits(bb, mask) < pow2(pop_count(mask)),
    decreases mask,
{
    lemma2_to64();
    if mask == 0 {
    } else if mask % 2 == 1 {
        lemma_gather_bound(bb / 2, mask / 2);
        lemma_pow2_unfold(pop_count(mask));
    } else {
        lemma_gather_bound(bb / 2, mask / 2);
    }
}

proof fn lemma_shl_pow2(j: u64)
    requires
        j < 64,
    ensures
        (1u64 << j) == pow2(j as nat),
        pow2(j as nat) <= u64::MAX,
{
    lemma_u64_pow2_no_overflow(j as nat);
    assert(1u64 * pow2(j as nat) == pow2(j as nat)) by (nonlinear_arith);
    lemma_u64_shl_is_mul(1u64, j);
}

proof fn lemma_gather_fits(bb: u64, mask: u64)
    ensures
        gather_bits(bb, mask) < pow2(64),
        gather_bits(bb, mask) <= u64::MAX,
{
    lemma_gather_bound(bb, mask);
    lemma_pop_count_le_64(mask);
    if pop_count(mask) < 64 {
        lemma_pow2_strictly_increases(pop_count(mask), 64);
    }
    lemma2_to64();
}

/// The compact occupancy index of `bitboard` under `mask`: bits of `bitboard`
/// at the set positions of `mask`, packed low, ascending; bits outside `mask`
/// are discarded.
pub fn extract_mask(bitboard: Bitboard, mask: Bitboard) -> (r: Bitboard)
    ensures
        r == gather_bits(bitboard, mask),
{
    let mut b = bitboard;
    let mut m = mask;
    let mut r: u64 = 0;
    let mut j: u64 = 0;
    proof {
        lemma_pop_count_le_64(mask);
        lemma2_to64();
    }
    while m != 0
        invariant
            gather_bits(bitboard, mask) == r + pow2(j as nat) * gather_bits(b, m),
            r < pow2(j as nat),
            j + pop_count(m) == pop_count(mask),
            pop_count(mask) <= 64,
        decreases m,
    {
        proof {
            lemma_pop_count_pos(m);
            assert(j < 64);
        }
        let ghost p = pow2(j as nat);
        let ghost g2 = gather_bits(b / 2, m / 2);
        if m % 2 == 1 {
            proof {
                lemma_pow2_unfold((j + 1) as nat);
                assert(pow2((j + 1) as nat) * g2 == 2 * (p * g2)) by (nonlinear_arith)
                    requires
                        pow2((j + 1) as nat) == 2 * p,
                ;
                if b % 2 == 1 {
                    assert(gather_bits(b, m) == 1 + 2 * g2);
                    assert(p * (1 + 2 * g2) == p + 2 * (p * g2)) by (nonlinear_arith);
                } else {
                    assert(gather_bits(b, m) == 2 * g2);
                    assert(p * (2 * g2) == 2 * (p * g2)) by (nonlinear_arith);
                }
            }
            if b % 2 == 1 {
                proof {
                    lemma_shl_pow2(j);
                    assert(r | (1u64 << j) == r + (1u64 << j)) by (bit_vector)
                        requires
                            r < (1u64 << j),
                            j < 64,
                    ;
                }
                r = r | (1u64 << j);
            }
            j = j + 1;
        } else {
            proof {
                assert(gather_bits(b, m) == g2);
            }
        }
        b = b / 2;
        m = m / 2;
    }
    proof {
        assert(gather_bits(b, m) == 0);
        assert(pow2(j as nat) * gather_bits(b, m) == 0) by (nonlinear_arith)
            requires
                gather_bits(b, m) == 0,
        ;
    }
    r
}

/// The board set whose bits at the set positions of `mask` are the low bits of
/// `index`, in ascending order of position; every bit outside `mask` is clear.
pub fn create_occupancy_from_mask(index: Bitboard, mask: Bitboard) -> (r: Bitboard)
    ensures
        r == scatter_bits(index, mask),
{
    let mut x = index;
    let mut m = mask;
    let mut r: u64 = 0;
    let mut i: u64 = 0;
    proof {
        lemma2_to64();
    }
    while m != 0
        invariant
            scatter_bits(index, mask) == r + pow2(i as nat) * scatter_bits(x, m),
            r < pow2(i as nat),
            i <= 64,
            m < pow2((64 - i) as nat),
        decreases m,
    {
        proof {
            lemma2_to64();
            if i == 64 {
                assert(false);
            }
            lemma_pow2_unfold((64 - i) as nat);
            assert(m / 2 < pow2((64 - (i + 1)) as nat));
            lemma_pow2_unfold((i + 1) as nat);
        }
        let ghost p = pow2(i as nat);
        if m % 2 == 1 {
            let ghost s2 = scatter_bits(x / 2, m / 2);
            proof {
                assert(pow2((i + 1) as nat) * s2 == 2 * (p * s2)) by (nonlinear_arith)
                    requires
                        pow2((i + 1) as nat) == 2 * p,
                ;
                if x % 2 == 1 {
                    assert(scatter_bits(x, m) == 1 + 2 * s2);
                    assert(p * (1 + 2 * s2) == p + 2 * (p * s2)) by (nonlinear_arith);
                } else {
                    assert(scatter_bits(x, m) == 2 * s2);
                    assert(p * (2 * s2) == 2 * (p * s2)) by (nonlinear_arith);
                }
            }
            if x % 2 == 1 {
                proof {
                    lemma_shl_pow2(i);
                    assert(r | (1u64 << i) == r + (1u64 << i)) by (bit_vector)
                        requires
                            r < (1u64 << i),
                            i < 64,
                    ;
                }
                r = r | (1u64 << i);
            }
            x = x / 2;
        } else {
            let ghost s2 = scatter_bits(x, m / 2);
            proof {
                assert(scatter_bits(x, m) == 2 * s2);
                assert(p * (2 * s2) == 2 * (p * s2)) by (nonlinear_arith);
                assert(pow2((i + 1) as nat) * s2 == 2 * (p * s2)) by (nonlinear_arith)
                    requires
                        pow2((i + 1) as nat) == 2 * p,
                ;
            }
        }
        m = m / 2;
        i = i + 1;
    }
    proof {
        assert(scatter_bits(x, m) == 0);
        assert(pow2(i as nat) * scatter_bits(x, m) == 0) by (nonlinear_arith)
            requires
                scatter_bits(x, m) == 0,
        ;
    }
    r
}

/// Law: compressing a scattered index recovers the index. For every mask and
/// every index below two to the mask's population count, gathering the
/// scattered bits gives back exactly the index.
pub proof fn lemma_occupancy_roundtrip(index: u64, mask: u64)
    requires
        index < pow2(pop_count(mask)),
    ensures
        gather_bits(scatter_bits(index, mask) as u64, mask) == index,
    decreases mask,
{
    lemma_scatter_le_mask(index, mask);
    lemma2_to64();
    if mask == 0 {
    } else if mask % 2 == 1 {
        let m2 = mask / 2;
        let s2 = scatter_bits(index / 2, m2);
        lemma_scatter_le_mask(index / 2, m2);
        let d = scatter_bits(index, mask);
        let du = d as u64;
        assert(d == (index % 2) as nat + 2 * s2);
        assert(du % 2 == index % 2 && du / 2 == s2);
        lemma_pow2_unfold(pop_count(mask));
        assert(index / 2 < pow2(pop_count(m2)));
        lemma_occupancy_roundtrip(index / 2, m2);
        assert(gather_bits(du, mask) == (du % 2) as nat + 2 * gather_bits(du / 2, m2));
    } else {
        let m2 = mask / 2;
        let s2 = scatter_bits(index, m2);
        lemma_scatter_le_mask(index, m2);
        let d = scatter_bits(index, mask);
        let du = d as u64;
        assert(d == 2 * s2);
        assert(du % 2 == 0 && du / 2 == s2);
        lemma_occupancy_roundtrip(index, m2);
        assert(gather_bits(du, mask) == gather_bits(du / 2, m2));
    }
}

/// Law: scattering a gathered board restores the board inside the mask. For
/// every board set and mask, scattering the gathered bits back through the
/// same mask yields exactly the board's bits inside the mask.
pub proof fn lemma_occupancy_masking(bb: u64, mask: u64)
    ensures
        scatter_bits(gather_bits(bb, mask) as u64, mask) == bb & mask,
    decreases mask,
{
    lemma_gather_fits(bb, mask);
    if mask == 0 {
        assert(bb & 0u64 == 0) by (bit_vector);
    } else if mask % 2 == 1 {
        let m2 = mask / 2;
        let g2 = gather_bits(bb / 2, m2);
        lemma_gather_fits(bb / 2, m2);
        lemma_pop_count_le_64(mask);
        lemma_gather_bound(bb / 2, m2);
        if pop_count(m2) < 63 {
            lemma_pow2_strictly_increases(pop_count(m2), 63);
        }
        lemma_pow2_unfold(64);
        let e = gather_bits(bb, mask);
        assert(e == (bb % 2) as nat + 2 * g2);
        assert(g2 < pow2(63));
        let eu = e as u64;
        assert(eu % 2 == bb % 2 && eu / 2 == g2);
        lemma_occupancy_masking(bb / 2, m2);
        assert(scatter_bits(eu, mask) == (eu % 2) as nat + 2 * scatter_bits(eu / 2, m2));
        assert((bb % 2) + 2 * ((bb / 2) & (mask / 2)) == bb & mask) by (bit_vector)
            requires
                mask % 2 == 1,
        ;
    } else {
        let m2 = mask / 2;
        let e = gather_bits(bb, mask);
        let eu = e as u64;
        assert(e == gather_bits(bb / 2, m2));
        lemma_occupancy_masking(bb / 2, m2);
        assert(scatter_bits(eu, mask) == 2 * scatter_bits(eu, m2));
        assert(2 * ((bb / 2) & (mask / 2)) == bb & mask) by (bit_vector)
            requires
                mask % 2 == 0,
        ;
    }
}

} // verus!
