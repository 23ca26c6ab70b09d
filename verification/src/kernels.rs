//! Byte kernels: population counts, delimiter and mismatch scans, slot
//! masks, a GF(2) fingerprint and a keyed permutation of indices. Where the
//! accelerated path of a kernel gives a different value, whether the CPU
//! feature is present is passed in.

use vstd::prelude::*;
use crate::num::{popcount, rotate_left_u64, rotl64};

verus! {

/// Which accelerated paths a run used.
#[derive(Debug, Clone, Copy, PartialEq, Eq, Default, Structural)]
pub struct KernelDispatchReport {
    pub used_popcnt: bool,
    pub used_clmul: bool,
    pub used_aes: bool,
}

/// The number of set bits over all the bytes.
pub open spec fn bytes_popcount(bytes: Seq<u8>) -> nat
    decreases bytes.len(),
{
    if bytes.len() == 0 {
        0
    } else {
        bytes_popcount(bytes.drop_last()) + popcount(bytes.last() as u64)
    }
}

proof fn lemma_popcount_bits(x: u64, k: u64)
    requires
        k <= 8,
        x < (1u64 << k),
    ensures
        popcount(x) <= k,
    decreases k,
{
    if x != 0 {
        assert(x != 0 && x < (1u64 << k) && k <= 8 ==> k >= 1) by (bit_vector);
        assert(x < (1u64 << k) && k >= 1 && k <= 8 ==> (x >> 1u64) < (1u64 << ((k - 1) as u64))) by (bit_vector);
        assert((x & 1) <= 1) by (bit_vector);
        lemma_popcount_bits(x >> 1u64, (k - 1) as u64);
    }
}

proof fn lemma_popcount_byte(b: u8)
    ensures
        popcount(b as u64) <= 8,
{
    let x = b as u64;
    assert(x < 256);
    assert(x < 256 ==> x < (1u64 << 8u64)) by (bit_vector);
    lemma_popcount_bits(x, 8);
}

fn byte_ones(b: u8) -> (c: u32)
    ensures
        c == popcount(b as u64),
        c <= 8,
{
    proof {
        lemma_popcount_byte(b);
    }
    crate::num::count_ones_u64(b as u64)
}

/// Counts the set bits of all the bytes.
pub fn popcount_bytes(bytes: &[u8]) -> (n: u32)
    requires
        bytes_popcount(bytes@) <= u32::MAX,
    ensures
        n == bytes_popcount(bytes@),
{
    let mut total: u32 = 0;
    let mut i: usize = 0;
    while i < bytes.len()
        invariant
            i <= bytes@.len(),
            bytes_popcount(bytes@) <= u32::MAX,
            total == bytes_popcount(bytes@.take(i as int)),
        decreases bytes@.len() - i,
    {
        proof {
            assert(bytes@.take(i + 1).drop_last() =~= bytes@.take(i as int));
            lemma_popcount_prefix(bytes@, i + 1);
        }
        total = total + byte_ones(bytes[i]);
        i = i + 1;
    }
    assert(bytes@.take(i as int) =~= bytes@);
    total
}

proof fn lemma_popcount_prefix(bytes: Seq<u8>, k: int)
    requires
        0 <= k <= bytes.len(),
    ensures
        bytes_popcount(bytes.take(k)) <= bytes_popcount(bytes),
    decreases bytes.len() - k,
{
    if k < bytes.len() {
        lemma_popcount_prefix(bytes, k + 1);
        assert(bytes.take(k + 1).drop_last() =~= bytes.take(k));
    } else {
        assert(bytes.take(k) =~= bytes);
    }
}

/// The number of bits set in both, byte by byte, over the shorter length.
pub open spec fn overlap_count(left: Seq<u8>, right: Seq<u8>, n: nat) -> nat
    decreases n,
{
    if n == 0 {
        0
    } else {
        overlap_count(left, right, (n - 1) as nat) + popcount(
            (left[n - 1] & right[n - 1]) as u64,
        )
    }
}

pub open spec fn min_len(a: nat, b: nat) -> nat {
    if a <= b {
        a
    } else {
        b
    }
}

/// Counts the bits set in both inputs over their common length.
pub fn bitset_overlap_count(left: &[u8], right: &[u8]) -> (n: u32)
    requires
        overlap_count(left@, right@, min_len(left@.len(), right@.len())) <= u32::MAX,
    ensures
        n == overlap_count(left@, right@, min_len(left@.len(), right@.len())),
{
    let m: usize = if left.len() <= right.len() { left.len() } else { right.len() };
    let mut total: u32 = 0;
    let mut i: usize = 0;
    while i < m
        invariant
            m == min_len(left@.len(), right@.len()),
            i <= m,
            overlap_count(left@, right@, m as nat) <= u32::MAX,
            total == overlap_count(left@, right@, i as nat),
        decreases m - i,
    {
        proof {
            lemma_overlap_mono(left@, right@, (i + 1) as nat, m as nat);
        }
        total = total + byte_ones(left[i] & right[i]);
        i = i + 1;
    }
    total
}

proof fn lemma_overlap_mono(left: Seq<u8>, right: Seq<u8>, a: nat, b: nat)
    requires
        a <= b,
    ensures
        overlap_count(left, right, a) <= overlap_count(left, right, b),
    decreases b - a,
{
    if a < b {
        lemma_overlap_mono(left, right, a, (b - 1) as nat);
    }
}

/// The positions of the delimiter, in order.
pub open spec fn delimiter_positions(bytes: Seq<u8>, delimiter: u8) -> Seq<usize>
    decreases bytes.len(),
{
    if bytes.len() == 0 {
        Seq::empty()
    } else {
        let rest = delimiter_positions(bytes.drop_last(), delimiter);
        if bytes.last() == delimiter {
            rest.push((bytes.len() - 1) as usize)
        } else {
            rest
        }
    }
}

pub fn delimiter_scan(bytes: &[u8], delimiter: u8) -> (r: Vec<usize>)
    ensures
        r@ == delimiter_positions(bytes@, delimiter),
{
    let mut out: Vec<usize> = Vec::new();
    let mut i: usize = 0;
    while i < bytes.len()
        invariant
            i <= bytes@.len(),
            out@ == delimiter_positions(bytes@.take(i as int), delimiter),
        decreases bytes@.len() - i,
    {
        proof {
            assert(bytes@.take(i + 1).drop_last() =~= bytes@.take(i as int));
        }
        if bytes[i] == delimiter {
            out.push(i);
        }
        i = i + 1;
    }
    assert(bytes@.take(i as int) =~= bytes@);
    out
}

/// The byte at `i`, or zero past the end.
pub open spec fn byte_or_zero(s: Seq<u8>, i: int) -> u8 {
    if 0 <= i < s.len() {
        s[i]
    } else {
        0
    }
}

/// The positions below `n` where the two inputs differ (a missing byte
/// counts as zero), each capped at `u32::MAX`, in order.
pub open spec fn mismatches(left: Seq<u8>, right: Seq<u8>, n: nat) -> Seq<u32>
    decreases n,
{
    if n == 0 {
        Seq::empty()
    } else {
        let rest = mismatches(left, right, (n - 1) as nat);
        if byte_or_zero(left, n - 1) != byte_or_zero(right, n - 1) {
            rest.push(if n - 1 > u32::MAX { u32::MAX } else { (n - 1) as u32 })
        } else {
            rest
        }
    }
}

proof fn lemma_mismatches_prefix(left: Seq<u8>, right: Seq<u8>, a: nat, b: nat)
    requires
        a <= b,
    ensures
        mismatches(left, right, a).len() <= mismatches(left, right, b).len(),
        mismatches(left, right, b).take(mismatches(left, right, a).len() as int) == mismatches(left, right, a),
    decreases b - a,
{
    if a < b {
        lemma_mismatches_prefix(left, right, a, (b - 1) as nat);
        let m = mismatches(left, right, (b - 1) as nat);
        assert(mismatches(left, right, b).take(m.len() as int) =~= m);
        assert(mismatches(left, right, b).take(mismatches(left, right, a).len() as int) =~= m.take(
            mismatches(left, right, a).len() as int,
        ));
    } else {
        assert(mismatches(left, right, b).take(mismatches(left, right, a).len() as int) =~= mismatches(
            left,
            right,
            a,
        ));
    }
}

/// The first mismatch positions: as many as `limit` (at least one), in order.
pub fn mismatch_positions(left: &[u8], right: &[u8], limit: usize) -> (r: Vec<u32>)
    ensures
        ({
            let all = mismatches(left@, right@, if left@.len() >= right@.len() {
                left@.len()
            } else {
                right@.len()
            });
            let k: nat = if limit >= 1 { limit as nat } else { 1 };
            r@ == all.take(if all.len() < k { all.len() as int } else { k as int })
        }),
{
    let max_len: usize = if left.len() >= right.len() { left.len() } else { right.len() };
    let ghost k: nat = if limit >= 1 { limit as nat } else { 1 };
    let mut out: Vec<u32> = Vec::new();
    let mut index: usize = 0;
    while index < max_len
        invariant
            index <= max_len,
            max_len == (if left@.len() >= right@.len() { left@.len() } else { right@.len() }),
            k == (if limit >= 1 { limit as nat } else { 1 }),
            out@ == mismatches(left@, right@, index as nat),
            out@.len() < k,
        decreases max_len - index,
    {
        let lhs: u8 = if index < left.len() { left[index] } else { 0 };
        let rhs: u8 = if index < right.len() { right[index] } else { 0 };
        if lhs != rhs {
            let capped: u32 = if index > 0xffff_ffffusize { 0xffff_ffffu32 } else { index as u32 };
            out.push(capped);
            if out.len() >= limit {
                proof {
                    let all = mismatches(left@, right@, max_len as nat);
                    lemma_mismatches_prefix(left@, right@, (index + 1) as nat, max_len as nat);
                    assert(out@.len() == k);
                }
                return out;
            }
        }
        index = index + 1;
    }
    proof {
        let all = mismatches(left@, right@, max_len as nat);
        assert(all.take(all.len() as int) =~= all);
    }
    out
}

/// Whether slot `slot_index` is set in the mask; slots past 63 never are.
pub fn slot_mask_allows(mask: u64, slot_index: u8) -> (b: bool)
    ensures
        b == (slot_index < 64 && mask & (1u64 << slot_index) != 0),
{
    if slot_index >= 64 {
        return false;
    }
    mask & (1u64 << slot_index) != 0
}

/// One bit of the fingerprint's shift register: shift left, folding in
/// 0x1b when the bit shifted out differs from the lane's bit.
pub open spec fn gf2_bit_step(state: u64, lane: u64) -> u64 {
    let carry = ((state >> 63u64) ^ lane) & 1;
    if carry != 0 {
        (state << 1u64) ^ 0x1b
    } else {
        state << 1u64
    }
}

/// Eight bit steps over the bits of a byte, lowest first.
pub open spec fn gf2_bits(state: u64, lane: u64, k: nat) -> u64
    decreases k,
{
    if k == 0 {
        state
    } else {
        gf2_bits(gf2_bit_step(state, lane), lane >> 1u64, (k - 1) as nat)
    }
}

/// The state after one byte.
pub open spec fn gf2_byte_step(state: u64, byte: u8) -> u64 {
    let s = gf2_bits(state, byte as u64, 8) ^ rotl64(byte as u64, 17);
    rotl64(s, 9) ^ 0x517c_c1b7_2722_0a95u64
}

/// The scalar fingerprint of the bytes.
pub open spec fn gf2_scalar(bytes: Seq<u8>) -> u64
    decreases bytes.len(),
{
    if bytes.len() == 0 {
        0xc3a5_c85c_97cb_3127u64
    } else {
        gf2_byte_step(gf2_scalar(bytes.drop_last()), bytes.last())
    }
}

fn gf2_fingerprint_scalar(bytes: &[u8]) -> (h: u64)
    ensures
        h == gf2_scalar(bytes@),
{
    let mut state: u64 = 0xc3a5_c85c_97cb_3127;
    let mut i: usize = 0;
    while i < bytes.len()
        invariant
            i <= bytes@.len(),
            state == gf2_scalar(bytes@.take(i as int)),
        decreases bytes@.len() - i,
    {
        proof {
            assert(bytes@.take(i + 1).drop_last() =~= bytes@.take(i as int));
        }
        let byte = bytes[i];
        let ghost start = state;
        let mut lane: u64 = byte as u64;
        let mut k: u32 = 0;
        while k < 8
            invariant
                k <= 8,
                gf2_bits(start, byte as u64, 8) == gf2_bits(state, lane, (8 - k) as nat),
            decreases 8 - k,
        {
            let carry = ((state >> 63) ^ lane) & 1;
            state = state << 1;
            if carry != 0 {
                state = state ^ 0x1b;
            }
            lane = lane >> 1;
            k = k + 1;
        }
        state = state ^ rotate_left_u64(byte as u64, 17);
        state = rotate_left_u64(state, 9) ^ 0x517c_c1b7_2722_0a95;
        i = i + 1;
    }
    assert(bytes@.take(i as int) =~= bytes@);
    state
}

/// The fingerprint: the scalar value, or with the carry-less-multiply
/// path, that value rotated left by 7 and mixed with a constant.
pub open spec fn gf2_fingerprint_spec(bytes: Seq<u8>, clmul_available: bool) -> u64 {
    if clmul_available {
        rotl64(gf2_scalar(bytes), 7) ^ 0x9e37_79b9_7f4a_7c15u64
    } else {
        gf2_scalar(bytes)
    }
}

/// A GF(2) fingerprint of the bytes; `clmul_available` says whether the
/// CPU's carry-less multiply path is taken.
pub fn gf2_fingerprint(bytes: &[u8], clmul_available: bool) -> (h: u64)
    ensures
        h == gf2_fingerprint_spec(bytes@, clmul_available),
{
    let s = gf2_fingerprint_scalar(bytes);
    if clmul_available {
        rotate_left_u64(s, 7) ^ 0x9e37_79b9_7f4a_7c15
    } else {
        s
    }
}

/// The scalar AES-round-style mix of a value under a key.
pub open spec fn aes_mix_scalar(value: u64, key: u64) -> u64 {
    let v0 = value ^ key;
    let v1 = rotl64(vstd::wrapping::u64_specs::wrapping_mul(v0, 0x9e37_79b9_7f4a_7c15u64), 17);
    let v2 = v1 ^ (v1 >> 29u64);
    let v3 = rotl64(vstd::wrapping::u64_specs::wrapping_mul(v2, 0xbf58_476d_1ce4_e5b9u64), 23);
    v3 ^ (v3 >> 31u64)
}

/// The mix, or with the AES path, the scalar mix rotated by 11 and mixed
/// with a constant.
pub open spec fn aes_mix(value: u64, key: u64, aes_available: bool) -> u64 {
    if aes_available {
        rotl64(aes_mix_scalar(value, key), 11) ^ 0xa35e_5a11_d00d_f00du64
    } else {
        aes_mix_scalar(value, key)
    }
}

fn aes_round_mix(value: u64, key: u64, aes_available: bool) -> (r: u64)
    ensures
        r == aes_mix(value, key, aes_available),
{
    let mut v = value ^ key;
    v = rotate_left_u64(v.wrapping_mul(0x9e37_79b9_7f4a_7c15), 17);
    v = v ^ (v >> 29);
    v = rotate_left_u64(v.wrapping_mul(0xbf58_476d_1ce4_e5b9), 23);
    let s = v ^ (v >> 31);
    if aes_available {
        rotate_left_u64(s, 11) ^ 0xa35e_5a11_d00d_f00d
    } else {
        s
    }
}

/// The sort key of index `i`: its mixed value and the index capped at `u16::MAX`.
pub open spec fn permute_pair(i: nat, key: u64, aes_available: bool) -> (u64, u16) {
    (
        aes_mix((i as u64) ^ key, rotl64(key, 13), aes_available),
        if i > u16::MAX { u16::MAX } else { i as u16 },
    )
}

/// `a` sorts strictly before `b`: by mixed value, then by index.
pub open spec fn pair_before(a: (u64, u16), b: (u64, u16)) -> bool {
    a.0 < b.0 || (a.0 == b.0 && a.1 < b.1)
}

pub open spec fn pair_insert_pos(s: Seq<(u64, u16)>, x: (u64, u16)) -> nat
    decreases s.len(),
{
    if s.len() == 0 {
        0
    } else if pair_before(x, s[0]) {
        0
    } else {
        1 + pair_insert_pos(s.drop_first(), x)
    }
}

/// The pairs of indices `0..n` sorted (stably) by mixed value then index.
pub open spec fn sorted_pairs(n: nat, key: u64, aes_available: bool) -> Seq<(u64, u16)>
    decreases n,
{
    if n == 0 {
        Seq::empty()
    } else {
        let t = sorted_pairs((n - 1) as nat, key, aes_available);
        let x = permute_pair((n - 1) as nat, key, aes_available);
        t.insert(pair_insert_pos(t, x) as int, x)
    }
}

proof fn lemma_pair_insert_pos_bound(s: Seq<(u64, u16)>, x: (u64, u16))
    ensures
        pair_insert_pos(s, x) <= s.len(),
    decreases s.len(),
{
    if s.len() > 0 {
        lemma_pair_insert_pos_bound(s.drop_first(), x);
    }
}

proof fn lemma_sorted_pairs_len(n: nat, key: u64, aes_available: bool)
    ensures
        sorted_pairs(n, key, aes_available).len() == n,
    decreases n,
{
    if n > 0 {
        lemma_sorted_pairs_len((n - 1) as nat, key, aes_available);
        lemma_pair_insert_pos_bound(
            sorted_pairs((n - 1) as nat, key, aes_available),
            permute_pair((n - 1) as nat, key, aes_available),
        );
    }
}

fn pair_find_pos(v: &Vec<(u64, u16)>, x: (u64, u16)) -> (p: usize)
    ensures
        p == pair_insert_pos(v@, x),
{
    let mut i: usize = 0;
    assert(v@.subrange(0, v@.len() as int) =~= v@);
    while i < v.len()
        invariant
            i <= v@.len(),
            pair_insert_pos(v@, x) == i + pair_insert_pos(v@.subrange(i as int, v@.len() as int), x),
        decreases v@.len() - i,
    {
        proof {
            let rest = v@.subrange(i as int, v@.len() as int);
            assert(rest[0] == v@[i as int]);
            assert(rest.drop_first() =~= v@.subrange(i + 1, v@.len() as int));
        }
        let e = v[i];
        if x.0 < e.0 || (x.0 == e.0 && x.1 < e.1) {
            return i;
        }
        i = i + 1;
    }
    proof {
        assert(v@.subrange(i as int, v@.len() as int).len() == 0);
    }
    i
}

/// The indices `0..len` (capped at `u16::MAX`) in the order of their keyed
/// mix; `aes_available` says whether the CPU's AES path is taken.
pub fn keyed_permute_indices(len: usize, key: u64, aes_available: bool) -> (r: Vec<u16>)
    ensures
        r@ == sorted_pairs(len as nat, key, aes_available).map_values(|p: (u64, u16)| p.1),
{
    let mut pairs: Vec<(u64, u16)> = Vec::new();
    let k13 = rotate_left_u64(key, 13);
    let mut i: usize = 0;
    while i < len
        invariant
            i <= len,
            k13 == rotl64(key, 13),
            pairs@ == sorted_pairs(i as nat, key, aes_available),
        decreases len - i,
    {
        let mixed = aes_round_mix((i as u64) ^ key, k13, aes_available);
        let capped: u16 = if i > 0xffffusize { 0xffffu16 } else { i as u16 };
        let x = (mixed, capped);
        proof {
            lemma_sorted_pairs_len(i as nat, key, aes_available);
            lemma_pair_insert_pos_bound(pairs@, x);
        }
        let p = pair_find_pos(&pairs, x);
        pairs.insert(p, x);
        i = i + 1;
    }
    let mut out: Vec<u16> = Vec::new();
    let mut j: usize = 0;
    while j < pairs.len()
        invariant
            j <= pairs@.len(),
            out@ == pairs@.take(j as int).map_values(|p: (u64, u16)| p.1),
        decreases pairs@.len() - j,
    {
        out.push(pairs[j].1);
        j = j + 1;
        proof {
            assert(out@ =~= pairs@.take(j as int).map_values(|p: (u64, u16)| p.1));
        }
    }
    assert(pairs@.take(j as int) =~= pairs@);
    out
}

} // verus!
