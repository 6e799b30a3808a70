//! The bytes of a content determine the state that gives them.
//!
//! A step of a content is linear over the bits of its state. Thus each bit of a state is the parity
//! of a selection of the bits of nine bytes, and two states that give the same nine bytes are equal.

use vstd::prelude::*;

use crate::rng;

verus! {

/// The step of a content is linear over the bits of its state.
pub proof fn lemma_step_is_linear(x: u64, y: u64)
    ensures
        rng::content_step(x) ^ rng::content_step(y) == rng::content_step(x ^ y),
{
    assert(({
        let a = x ^ (x << 13);
        let b = a ^ (a >> 7);
        b ^ (b << 17)
    }) ^ ({
        let a = y ^ (y << 13);
        let b = a ^ (a >> 7);
        b ^ (b << 17)
    }) == ({
        let d = x ^ y;
        let a = d ^ (d << 13);
        let b = a ^ (a >> 7);
        b ^ (b << 17)
    })) by (bit_vector);
}

/// Whether the number of bits of `x` that are 1 is odd.
spec fn parity(x: u64) -> bool
    decreases x,
{
    if x == 0 {
        false
    } else {
        proof {
            assert(x != 0 ==> x >> 1 < x) by (bit_vector);
        }
        parity(x >> 1) != (x & 1 == 1)
    }
}

proof fn lemma_parity_xor(x: u64, y: u64)
    ensures
        parity(x ^ y) == (parity(x) != parity(y)),
    decreases x + y,
{
    assert(x ^ 0 == x && 0 ^ y == y && y ^ y == 0 && (x != 0 ==> x >> 1 < x) && (y != 0 ==> y >> 1
        < y) && (x ^ y) >> 1 == (x >> 1) ^ (y >> 1) && ((x ^ y) & 1 == 1) == ((x & 1 == 1) != (y & 1
        == 1)) && (x ^ y == 0 ==> x == y)) by (bit_vector);
    if x != 0 && y != 0 {
        lemma_parity_xor(x >> 1, y >> 1);
    }
}

proof fn lemma_parity_shift(x: u64, k: u64)
    requires
        k < 64,
        (x << k) >> k == x,
    ensures
        parity(x << k) == parity(x),
    decreases k,
{
    let j = (k - 1) as u64;
    if k == 0 {
        assert(x << 0 == x) by (bit_vector);
    } else {
        let y = x << j;
        assert((x << j) >> j == x && ((x << j) << 1) >> 1 == x << j && x << k == (x << j) << 1 && ((x
            << j) << 1) & 1 == 0) by (bit_vector)
            requires
                0 < k < 64,
                j + 1 == k,
                (x << k) >> k == x,
        ;
        lemma_parity_shift(x, j);
        assert(y << 1 == 0 ==> y == 0) by (bit_vector)
            requires
                (y << 1) >> 1 == y,
        ;
    }
}

/// The parity of the bits of `s` that `w` selects.
spec fn selected(w: u64, s: u64) -> bool {
    parity(w & s)
}

proof fn lemma_selected_xor(w: u64, v: u64, s: u64, t: u64)
    ensures
        selected(w ^ v, s) == (selected(w, s) != selected(v, s)),
        selected(w, s ^ t) == (selected(w, s) != selected(w, t)),
{
    assert((w ^ v) & s == (w & s) ^ (v & s) && w & (s ^ t) == (w & s) ^ (w & t)) by (bit_vector);
    lemma_parity_xor(w & s, v & s);
    lemma_parity_xor(w & s, w & t);
}

proof fn lemma_selected_left(w: u64, s: u64, k: u64)
    requires
        k < 64,
        w & (s << k) == ((w >> k) & s) << k,
        (((w >> k) & s) << k) >> k == (w >> k) & s,
    ensures
        selected(w, s << k) == selected(w >> k, s),
{
    lemma_parity_shift((w >> k) & s, k);
}

proof fn lemma_selected_right(w: u64, s: u64, k: u64)
    requires
        k < 64,
        (w << k) & s == (w & (s >> k)) << k,
        ((w & (s >> k)) << k) >> k == w & (s >> k),
    ensures
        selected(w, s >> k) == selected(w << k, s),
{
    lemma_parity_shift(w & (s >> k), k);
}

/// The selection before a step of a content that is equal to the selection `w` after the step.
spec fn step_back(w: u64) -> u64 {
    let a = w ^ (w >> 17);
    let b = a ^ (a << 7);
    b ^ (b >> 13)
}

proof fn lemma_step_back(w: u64, s: u64)
    ensures
        selected(w, rng::content_step(s)) == selected(step_back(w), s),
{
    let s1 = s ^ (s << 13);
    let s2 = s1 ^ (s1 >> 7);
    let w1 = w ^ (w >> 17);
    let w2 = w1 ^ (w1 << 7);
    lemma_selected_xor(w, w >> 17, s2, s2 << 17);
    assert(w & (s2 << 17) == ((w >> 17) & s2) << 17 && (((w >> 17) & s2) << 17) >> 17 == (w >> 17)
        & s2) by (bit_vector);
    lemma_selected_left(w, s2, 17);
    lemma_selected_xor(w1, w1 << 7, s1, s1 >> 7);
    assert((w1 << 7) & s1 == (w1 & (s1 >> 7)) << 7 && ((w1 & (s1 >> 7)) << 7) >> 7 == w1 & (s1 >> 7))
        by (bit_vector);
    lemma_selected_right(w1, s1, 7);
    lemma_selected_xor(w2, w2 >> 13, s, s << 13);
    assert(w2 & (s << 13) == ((w2 >> 13) & s) << 13 && (((w2 >> 13) & s) << 13) >> 13 == (w2 >> 13)
        & s) by (bit_vector);
    lemma_selected_left(w2, s, 13);
}

/// The selection `w` after a step together with the selection of the bits `bits` of the highest
/// byte before the step.
spec fn extended(w: u64, bits: u64) -> u64 {
    step_back(w) ^ (bits << 56)
}

/// The selection in a state that is equal to the selection of bits in the highest bytes of this
/// state and of the eight states after it: the byte `i` of `low` selects in the state `i`, and
/// `high` selects in the last state.
spec fn combined(low: u64, high: u64) -> u64 {
    let w7 = extended(high << 56, low >> 56);
    let w6 = extended(w7, low >> 48);
    let w5 = extended(w6, low >> 40);
    let w4 = extended(w5, low >> 32);
    let w3 = extended(w4, low >> 24);
    let w2 = extended(w3, low >> 16);
    let w1 = extended(w2, low >> 8);
    extended(w1, low)
}

proof fn lemma_extended(w: u64, bits: u64, s: u64)
    requires
        rng::top_byte(s) == 0,
        !selected(w, rng::content_step(s)),
    ensures
        !selected(extended(w, bits), s),
{
    lemma_step_back(w, s);
    lemma_selected_xor(step_back(w), bits << 56, s, 0);
    assert((bits << 56) & s == 0) by (bit_vector)
        requires
            (s >> 56) as u8 == 0,
    ;
}

/// The state `n` steps after the state `s`.
pub open spec fn after(s: u64, n: nat) -> u64
    decreases n,
{
    if n == 0 {
        s
    } else {
        rng::content_step(after(s, (n - 1) as nat))
    }
}

proof fn lemma_combined(s: u64, low: u64, high: u64)
    requires
        forall|i: nat| i < 9 ==> rng::top_byte(#[trigger] after(s, i)) == 0,
    ensures
        !selected(combined(low, high), s),
{
    reveal_with_fuel(after, 9);
    let s8 = after(s, 8);
    assert((high << 56) & s8 == 0) by (bit_vector)
        requires
            (s8 >> 56) as u8 == 0,
    ;
    let w7 = extended(high << 56, low >> 56);
    let w6 = extended(w7, low >> 48);
    let w5 = extended(w6, low >> 40);
    let w4 = extended(w5, low >> 32);
    let w3 = extended(w4, low >> 24);
    let w2 = extended(w3, low >> 16);
    let w1 = extended(w2, low >> 8);
    lemma_extended(high << 56, low >> 56, after(s, 7));
    lemma_extended(w7, low >> 48, after(s, 6));
    lemma_extended(w6, low >> 40, after(s, 5));
    lemma_extended(w5, low >> 32, after(s, 4));
    lemma_extended(w4, low >> 24, after(s, 3));
    lemma_extended(w3, low >> 16, after(s, 2));
    lemma_extended(w2, low >> 8, after(s, 1));
    lemma_extended(w1, low, after(s, 0));
}

/// Nine bytes of a content select each bit of its state.
proof fn lemma_each_bit()
    by (bit_vector)
    ensures
        combined(0x74f6_7972_3c5f_32fd, 0x00) == 1u64 << 0,
        combined(0x7018_f092_937f_65ef, 0x00) == 1u64 << 1,
        combined(0x7001_f5b4_adcd_d412, 0x00) == 1u64 << 2,
        combined(0x4e04_0795_63db_0c30, 0x40) == 1u64 << 3,
        combined(0x6a3f_ba40_a5fc_3c6e, 0x00) == 1u64 << 4,
        combined(0x6261_956f_58f7_b098, 0x40) == 1u64 << 5,
        combined(0x22ea_52c4_c00f_2ab8, 0x40) == 1u64 << 6,
        combined(0x7f73_5cff_681a_12ac, 0x40) == 1u64 << 7,
        combined(0x2a10_498f_551f_6a48, 0x40) == 1u64 << 8,
        combined(0x330c_6a97_d91c_26b5, 0x40) == 1u64 << 9,
        combined(0x44d9_ecc0_3aa1_870c, 0x00) == 1u64 << 10,
        combined(0x4d1d_0f9e_9acc_2d40, 0x40) == 1u64 << 11,
        combined(0x5b3c_508c_4d8b_2418, 0x00) == 1u64 << 12,
        combined(0x5a53_cf7f_e30f_82dd, 0x40) == 1u64 << 13,
        combined(0x60f4_2e33_8cb4_9899, 0x00) == 1u64 << 14,
        combined(0x063f_440b_7e34_5717, 0x40) == 1u64 << 15,
        combined(0x78df_acbe_f0a9_627c, 0x00) == 1u64 << 16,
        combined(0x480e_ea85_8ca8_8a94, 0x40) == 1u64 << 17,
        combined(0x2313_85a8_39ad_a5d9, 0x40) == 1u64 << 18,
        combined(0x4f07_787e_2a19_9168, 0x00) == 1u64 << 19,
        combined(0x0c86_c9fa_9841_3e66, 0x40) == 1u64 << 20,
        combined(0x336b_d1ce_57c4_29b9, 0x00) == 1u64 << 21,
        combined(0x6003_73be_c784_a441, 0x00) == 1u64 << 22,
        combined(0x452c_85f9_304d_f632, 0x00) == 1u64 << 23,
        combined(0x2a13_a09a_6e97_5c45, 0x00) == 1u64 << 24,
        combined(0x5bea_d35a_f368_f33f, 0x40) == 1u64 << 25,
        combined(0x790f_d06a_ea1f_deb4, 0x00) == 1u64 << 26,
        combined(0x6041_8904_f719_1737, 0x40) == 1u64 << 27,
        combined(0x0ef5_73b8_8b3e_9f52, 0x40) == 1u64 << 28,
        combined(0x5292_316d_24d8_3c97, 0x40) == 1u64 << 29,
        combined(0x3801_4046_c296_589d, 0x00) == 1u64 << 30,
        combined(0x20ba_c7e7_ee77_0128, 0x40) == 1u64 << 31,
        combined(0x1987_a7bc_fe6f_e7b1, 0x00) == 1u64 << 32,
        combined(0x236b_a367_5014_cbdd, 0x40) == 1u64 << 33,
        combined(0x032c_b3cb_273a_771d, 0x40) == 1u64 << 34,
        combined(0x21da_175b_8748_9321, 0x40) == 1u64 << 35,
        combined(0x6f64_04bf_32ed_622e, 0x40) == 1u64 << 36,
        combined(0x505b_99c3_5bbf_c2cc, 0x00) == 1u64 << 37,
        combined(0x4255_c769_bdab_38ad, 0x00) == 1u64 << 38,
        combined(0x7616_b072_a192_6a30, 0x00) == 1u64 << 39,
        combined(0x1b08_c4ee_0665_343f, 0x00) == 1u64 << 40,
        combined(0x1c7b_58b0_f3f5_0657, 0x00) == 1u64 << 41,
        combined(0x715f_42e2_5686_0934, 0x40) == 1u64 << 42,
        combined(0x25ab_e2fb_41a5_afda, 0x00) == 1u64 << 43,
        combined(0x73bf_db87_0d5f_19fd, 0x40) == 1u64 << 44,
        combined(0x0b15_a2bb_0f38_d1eb, 0x40) == 1u64 << 45,
        combined(0x4ff2_3f5c_59a9_bb73, 0x00) == 1u64 << 46,
        combined(0x0bda_25a6_db19_4fea, 0x40) == 1u64 << 47,
        combined(0x3841_9ee8_f0bb_dfcb, 0x40) == 1u64 << 48,
        combined(0x035b_486c_191a_e4f6, 0x40) == 1u64 << 49,
        combined(0x462b_1ed8_0395_6a71, 0x40) == 1u64 << 50,
        combined(0x2911_45e1_ae38_df93, 0x40) == 1u64 << 51,
        combined(0x67df_fd19_49df_f8dc, 0x00) == 1u64 << 52,
        combined(0x31ba_460d_0c4d_ae60, 0x00) == 1u64 << 53,
        combined(0x25d0_d11b_0b3b_06ab, 0x40) == 1u64 << 54,
        combined(0x31e4_0193_9b76_72b4, 0x00) == 1u64 << 55,
        combined(0x0000_0000_0000_0001, 0x00) == 1u64 << 56,
        combined(0x0000_0000_0000_0002, 0x00) == 1u64 << 57,
        combined(0x0000_0000_0000_0004, 0x00) == 1u64 << 58,
        combined(0x0000_0000_0000_0008, 0x00) == 1u64 << 59,
        combined(0x0000_0000_0000_0010, 0x00) == 1u64 << 60,
        combined(0x0000_0000_0000_0020, 0x00) == 1u64 << 61,
        combined(0x0000_0000_0000_0040, 0x00) == 1u64 << 62,
        combined(0x0000_0000_0000_0080, 0x00) == 1u64 << 63,
{
}

/// A state whose bit `b` some selection of nine bytes shows has the bit 0 there.
proof fn lemma_bit(s: u64, low: u64, high: u64, b: u64)
    requires
        forall|i: nat| i < 9 ==> rng::top_byte(#[trigger] after(s, i)) == 0,
        b < 64,
        combined(low, high) == 1u64 << b,
    ensures
        s & (1u64 << b) == 0,
{
    lemma_combined(s, low, high);
    let x = (1u64 << b) & s;
    if x != 0 {
        assert(x == 1u64 << b && ((1u64 << b) >> b) == 1u64 && (1u64 << b) == s & (1u64 << b))
            by (bit_vector)
            requires
                x == (1u64 << b) & s,
                x != 0,
                b < 64,
        ;
        lemma_parity_shift(1, b);
        reveal_with_fuel(parity, 2);
        assert(1u64 >> 1 == 0 && 1u64 & 1 == 1) by (bit_vector);
        assert(parity(1));
    }
    assert(x == s & (1u64 << b)) by (bit_vector)
        requires
            x == (1u64 << b) & s,
    ;
}

/// A state that gives nine times the byte 0 is 0.
proof fn lemma_silent(s: u64)
    requires
        forall|i: nat| i < 9 ==> rng::top_byte(#[trigger] after(s, i)) == 0,
    ensures
        s == 0,
{
    lemma_each_bit();
    lemma_bit(s, 0x74f6_7972_3c5f_32fd, 0x00, 0);
    lemma_bit(s, 0x7018_f092_937f_65ef, 0x00, 1);
    lemma_bit(s, 0x7001_f5b4_adcd_d412, 0x00, 2);
    lemma_bit(s, 0x4e04_0795_63db_0c30, 0x40, 3);
    lemma_bit(s, 0x6a3f_ba40_a5fc_3c6e, 0x00, 4);
    lemma_bit(s, 0x6261_956f_58f7_b098, 0x40, 5);
    lemma_bit(s, 0x22ea_52c4_c00f_2ab8, 0x40, 6);
    lemma_bit(s, 0x7f73_5cff_681a_12ac, 0x40, 7);
    lemma_bit(s, 0x2a10_498f_551f_6a48, 0x40, 8);
    lemma_bit(s, 0x330c_6a97_d91c_26b5, 0x40, 9);
    lemma_bit(s, 0x44d9_ecc0_3aa1_870c, 0x00, 10);
    lemma_bit(s, 0x4d1d_0f9e_9acc_2d40, 0x40, 11);
    lemma_bit(s, 0x5b3c_508c_4d8b_2418, 0x00, 12);
    lemma_bit(s, 0x5a53_cf7f_e30f_82dd, 0x40, 13);
    lemma_bit(s, 0x60f4_2e33_8cb4_9899, 0x00, 14);
    lemma_bit(s, 0x063f_440b_7e34_5717, 0x40, 15);
    lemma_bit(s, 0x78df_acbe_f0a9_627c, 0x00, 16);
    lemma_bit(s, 0x480e_ea85_8ca8_8a94, 0x40, 17);
    lemma_bit(s, 0x2313_85a8_39ad_a5d9, 0x40, 18);
    lemma_bit(s, 0x4f07_787e_2a19_9168, 0x00, 19);
    lemma_bit(s, 0x0c86_c9fa_9841_3e66, 0x40, 20);
    lemma_bit(s, 0x336b_d1ce_57c4_29b9, 0x00, 21);
    lemma_bit(s, 0x6003_73be_c784_a441, 0x00, 22);
    lemma_bit(s, 0x452c_85f9_304d_f632, 0x00, 23);
    lemma_bit(s, 0x2a13_a09a_6e97_5c45, 0x00, 24);
    lemma_bit(s, 0x5bea_d35a_f368_f33f, 0x40, 25);
    lemma_bit(s, 0x790f_d06a_ea1f_deb4, 0x00, 26);
    lemma_bit(s, 0x6041_8904_f719_1737, 0x40, 27);
    lemma_bit(s, 0x0ef5_73b8_8b3e_9f52, 0x40, 28);
    lemma_bit(s, 0x5292_316d_24d8_3c97, 0x40, 29);
    lemma_bit(s, 0x3801_4046_c296_589d, 0x00, 30);
    lemma_bit(s, 0x20ba_c7e7_ee77_0128, 0x40, 31);
    lemma_bit(s, 0x1987_a7bc_fe6f_e7b1, 0x00, 32);
    lemma_bit(s, 0x236b_a367_5014_cbdd, 0x40, 33);
    lemma_bit(s, 0x032c_b3cb_273a_771d, 0x40, 34);
    lemma_bit(s, 0x21da_175b_8748_9321, 0x40, 35);
    lemma_bit(s, 0x6f64_04bf_32ed_622e, 0x40, 36);
    lemma_bit(s, 0x505b_99c3_5bbf_c2cc, 0x00, 37);
    lemma_bit(s, 0x4255_c769_bdab_38ad, 0x00, 38);
    lemma_bit(s, 0x7616_b072_a192_6a30, 0x00, 39);
    lemma_bit(s, 0x1b08_c4ee_0665_343f, 0x00, 40);
    lemma_bit(s, 0x1c7b_58b0_f3f5_0657, 0x00, 41);
    lemma_bit(s, 0x715f_42e2_5686_0934, 0x40, 42);
    lemma_bit(s, 0x25ab_e2fb_41a5_afda, 0x00, 43);
    lemma_bit(s, 0x73bf_db87_0d5f_19fd, 0x40, 44);
    lemma_bit(s, 0x0b15_a2bb_0f38_d1eb, 0x40, 45);
    lemma_bit(s, 0x4ff2_3f5c_59a9_bb73, 0x00, 46);
    lemma_bit(s, 0x0bda_25a6_db19_4fea, 0x40, 47);
    lemma_bit(s, 0x3841_9ee8_f0bb_dfcb, 0x40, 48);
    lemma_bit(s, 0x035b_486c_191a_e4f6, 0x40, 49);
    lemma_bit(s, 0x462b_1ed8_0395_6a71, 0x40, 50);
    lemma_bit(s, 0x2911_45e1_ae38_df93, 0x40, 51);
    lemma_bit(s, 0x67df_fd19_49df_f8dc, 0x00, 52);
    lemma_bit(s, 0x31ba_460d_0c4d_ae60, 0x00, 53);
    lemma_bit(s, 0x25d0_d11b_0b3b_06ab, 0x40, 54);
    lemma_bit(s, 0x31e4_0193_9b76_72b4, 0x00, 55);
    lemma_bit(s, 0x0000_0000_0000_0001, 0x00, 56);
    lemma_bit(s, 0x0000_0000_0000_0002, 0x00, 57);
    lemma_bit(s, 0x0000_0000_0000_0004, 0x00, 58);
    lemma_bit(s, 0x0000_0000_0000_0008, 0x00, 59);
    lemma_bit(s, 0x0000_0000_0000_0010, 0x00, 60);
    lemma_bit(s, 0x0000_0000_0000_0020, 0x00, 61);
    lemma_bit(s, 0x0000_0000_0000_0040, 0x00, 62);
    lemma_bit(s, 0x0000_0000_0000_0080, 0x00, 63);
    assert(s == 0) by (bit_vector)
        requires
            s & (1u64 << 0) == 0,
            s & (1u64 << 1) == 0,
            s & (1u64 << 2) == 0,
            s & (1u64 << 3) == 0,
            s & (1u64 << 4) == 0,
            s & (1u64 << 5) == 0,
            s & (1u64 << 6) == 0,
            s & (1u64 << 7) == 0,
            s & (1u64 << 8) == 0,
            s & (1u64 << 9) == 0,
            s & (1u64 << 10) == 0,
            s & (1u64 << 11) == 0,
            s & (1u64 << 12) == 0,
            s & (1u64 << 13) == 0,
            s & (1u64 << 14) == 0,
            s & (1u64 << 15) == 0,
            s & (1u64 << 16) == 0,
            s & (1u64 << 17) == 0,
            s & (1u64 << 18) == 0,
            s & (1u64 << 19) == 0,
            s & (1u64 << 20) == 0,
            s & (1u64 << 21) == 0,
            s & (1u64 << 22) == 0,
            s & (1u64 << 23) == 0,
            s & (1u64 << 24) == 0,
            s & (1u64 << 25) == 0,
            s & (1u64 << 26) == 0,
            s & (1u64 << 27) == 0,
            s & (1u64 << 28) == 0,
            s & (1u64 << 29) == 0,
            s & (1u64 << 30) == 0,
            s & (1u64 << 31) == 0,
            s & (1u64 << 32) == 0,
            s & (1u64 << 33) == 0,
            s & (1u64 << 34) == 0,
            s & (1u64 << 35) == 0,
            s & (1u64 << 36) == 0,
            s & (1u64 << 37) == 0,
            s & (1u64 << 38) == 0,
            s & (1u64 << 39) == 0,
            s & (1u64 << 40) == 0,
            s & (1u64 << 41) == 0,
            s & (1u64 << 42) == 0,
            s & (1u64 << 43) == 0,
            s & (1u64 << 44) == 0,
            s & (1u64 << 45) == 0,
            s & (1u64 << 46) == 0,
            s & (1u64 << 47) == 0,
            s & (1u64 << 48) == 0,
            s & (1u64 << 49) == 0,
            s & (1u64 << 50) == 0,
            s & (1u64 << 51) == 0,
            s & (1u64 << 52) == 0,
            s & (1u64 << 53) == 0,
            s & (1u64 << 54) == 0,
            s & (1u64 << 55) == 0,
            s & (1u64 << 56) == 0,
            s & (1u64 << 57) == 0,
            s & (1u64 << 58) == 0,
            s & (1u64 << 59) == 0,
            s & (1u64 << 60) == 0,
            s & (1u64 << 61) == 0,
            s & (1u64 << 62) == 0,
            s & (1u64 << 63) == 0,
    ;
}

proof fn lemma_after_xor(x: u64, y: u64, n: nat)
    ensures
        after(x, n) ^ after(y, n) == after(x ^ y, n),
    decreases n,
{
    if n > 0 {
        let m = (n - 1) as nat;
        lemma_after_xor(x, y, m);
        lemma_step_is_linear(after(x, m), after(y, m));
    }
}

/// Two states that give the same nine bytes are equal.
pub proof fn lemma_bytes_determine_state(x: u64, y: u64)
    requires
        forall|i: nat| i < 9 ==> rng::top_byte(#[trigger] after(x, i)) == rng::top_byte(after(y, i)),
    ensures
        x == y,
{
    assert forall|i: nat| i < 9 implies rng::top_byte(#[trigger] after(x ^ y, i)) == 0 by {
        lemma_after_xor(x, y, i);
        let a = after(x, i);
        let b = after(y, i);
        assert(((a ^ b) >> 56) as u8 == 0) by (bit_vector)
            requires
                (a >> 56) as u8 == (b >> 56) as u8,
        ;
    }
    lemma_silent(x ^ y);
    assert(x == y) by (bit_vector)
        requires
            x ^ y == 0,
    ;
}

} // verus!
