//! The IPL3 checksum: wrapping primitives, the round function and the
//! finalization, each stated as a spec function and implemented to match it.
use vstd::prelude::*;
use vstd::wrapping::u32_specs;

verus! {

/// Multiplier mixed with the seed to form the initial state.
pub const MAGIC: u32 = 0x6C078965;

pub open spec fn spec_add(a: u32, b: u32) -> u32 {
    u32_specs::wrapping_add(a, b)
}

pub open spec fn spec_sub(a: u32, b: u32) -> u32 {
    u32_specs::wrapping_sub(a, b)
}

pub open spec fn spec_mul(a: u32, b: u32) -> u32 {
    u32_specs::wrapping_mul(a, b)
}

/// Left rotation by `s` modulo 32.
pub open spec fn spec_rol(a: u32, s: u32) -> u32 {
    let k = s % 32;
    if k == 0 {
        a
    } else {
        (a << k) | (a >> (32 - k) as u32)
    }
}

/// Right rotation by `s` modulo 32.
pub open spec fn spec_ror(a: u32, s: u32) -> u32 {
    let k = s % 32;
    if k == 0 {
        a
    } else {
        (a >> k) | (a << (32 - k) as u32)
    }
}

/// The multiply-then-fold primitive: the 64-bit product of `a0` and `a1`
/// (or `a2` when `a1` is zero), high half minus low half, or `a0` itself when
/// that difference is zero.
pub open spec fn spec_sum(a0: u32, a1: u32, a2: u32) -> u32 {
    let m: u32 = if a1 == 0 { a2 } else { a1 };
    let prod: int = a0 * m;
    let hi: u32 = (prod / 0x1_0000_0000) as u32;
    let lo: u32 = (prod % 0x1_0000_0000) as u32;
    let diff = spec_sub(hi, lo);
    if diff == 0 { a0 } else { diff }
}


/// The part of round `i` that reads `prev` and `data` only: words 0..=9.
pub open spec fn round_head(s: Seq<u32>, prev: u32, data: u32, i: u32) -> Seq<u32> {
    let s0 = spec_add(s[0], spec_sum(spec_sub(1007, i), data, i));
    let s1 = spec_sum(s[1], data, i);
    let s2 = s[2] ^ data;
    let s3 = spec_add(s[3], spec_sum(spec_add(data, 5), MAGIC, i));
    let s4 = spec_add(s[4], spec_ror(data, prev & 0x1F));
    let s5 = spec_add(s[5], spec_rol(data, prev >> 27u32));
    let s6 = if data < s[6] {
        spec_add(s3, s[6]) ^ spec_add(data, i)
    } else {
        spec_add(s4, data) ^ s[6]
    };
    let s7 = spec_sum(s[7], spec_rol(data, prev & 0x1F), i);
    let s8 = spec_sum(s[8], spec_ror(data, prev >> 27u32), i);
    let s9 = if prev < data { spec_sum(s[9], data, i) } else { spec_add(s[9], data) };
    s.update(0, s0).update(1, s1).update(2, s2).update(3, s3).update(4, s4).update(
        5,
        s5,
    ).update(6, s6).update(7, s7).update(8, s8).update(9, s9)
}

/// The part of round `i` that also reads the following word `next`: words 10..=15.
pub open spec fn round_tail(s: Seq<u32>, prev: u32, data: u32, next: u32, i: u32) -> Seq<u32> {
    let s10 = spec_sum(spec_add(s[10], data), next, i);
    let s11 = spec_sum(s[11] ^ data, next, i);
    let s12 = spec_add(s[12], s[8] ^ data);
    let s13 = spec_add(s[13], spec_add(spec_ror(data, data & 0x1F), spec_ror(next, next & 0x1F)));
    let s14 = spec_sum(
        spec_sum(s[14], spec_ror(data, prev & 0x1F), i),
        spec_ror(next, data & 0x1F),
        i,
    );
    let s15 = spec_sum(
        spec_sum(s[15], spec_rol(data, prev >> 27u32), i),
        spec_rol(next, data >> 27u32),
        i,
    );
    s.update(10, s10).update(11, s11).update(12, s12).update(13, s13).update(14, s14).update(
        15,
        s15,
    )
}

/// The word before `data` in round `i`: `P[i - 2]`, or `P[0]` in the first round.
pub open spec fn prev_index(i: int) -> int {
    if i >= 2 { i - 2 } else { 0 }
}

/// The state after `n` complete rounds (rounds `1..=n`) over payload `p`.
pub open spec fn rounds(p: Seq<u32>, s: Seq<u32>, n: nat) -> Seq<u32>
    decreases n,
{
    if n == 0 {
        s
    } else {
        let t = rounds(p, s, (n - 1) as nat);
        let i = n as int;
        round_tail(
            round_head(t, p[prev_index(i)], p[i - 1], i as u32),
            p[prev_index(i)],
            p[i - 1],
            p[i],
            i as u32,
        )
    }
}

/// The main loop run to `end`: `end - 1` complete rounds, then the head of round `end`.
pub open spec fn calculate_spec(p: Seq<u32>, s: Seq<u32>, end: nat) -> Seq<u32> {
    let t = rounds(p, s, (end - 1) as nat);
    round_head(t, p[prev_index(end as int)], p[end - 1], end as u32)
}

/// One step of the finalization over the four accumulators.
pub open spec fn final_step(b: (u32, u32, u32, u32), d: u32, i: u32) -> (u32, u32, u32, u32) {
    let b0 = spec_add(b.0, spec_ror(d, d & 0x1F));
    let b1 = if d < b0 { spec_add(b.1, d) } else { spec_sum(b.1, d, i) };
    let b2 = if ((d & 0x02) >> 1u32) == (d & 0x01) { spec_add(b.2, d) } else { spec_sum(b.2, d, i) };
    let b3 = if (d & 0x01) == 0x01 { b.3 ^ d } else { spec_sum(b.3, d, i) };
    (b0, b1, b2, b3)
}

/// The accumulators after folding in `s[0..n]`.
pub open spec fn final_fold(s: Seq<u32>, n: nat) -> (u32, u32, u32, u32)
    decreases n,
{
    if n == 0 {
        (s[0], s[0], s[0], s[0])
    } else {
        final_step(final_fold(s, (n - 1) as nat), s[n - 1], (n - 1) as u32)
    }
}

/// The 48-bit checksum of a final state: the low 16 bits of the closing sum
/// above the xor of the last two accumulators.
pub open spec fn finalize_spec(s: Seq<u32>) -> u64 {
    let b = final_fold(s, 16);
    let final_sum = spec_sum(b.0, b.1, 16);
    let final_xor = b.3 ^ b.2;
    (((final_sum & 0xFFFF) as u64) << 32u64) | (final_xor as u64)
}

/// Big-endian word `k` of a byte sequence.
pub open spec fn be_word(b: Seq<u8>, k: int) -> u32 {
    ((b[4 * k] as u32) << 24u32) | ((b[4 * k + 1] as u32) << 16u32) | ((b[4 * k + 2] as u32)
        << 8u32) | (b[4 * k + 3] as u32)
}

/// The payload words decoded from its bytes.
pub open spec fn words_of(b: Seq<u8>) -> Seq<u32> {
    Seq::new(1008, |k: int| be_word(b, k))
}

/// The value every state word starts from.
pub open spec fn seed_word(seed: u8, p0: u32) -> u32 {
    spec_add(spec_mul(MAGIC, seed as u32), 1) ^ p0
}

/// Bit `i` of `y`, as 0 or 1.
pub open spec fn y_bit(y: u32, i: int) -> u32 {
    (y >> (i as u32)) & 1
}

/// A layout the hasher can apply: at most 32 entries, each naming a bit of the payload.
pub open spec fn layout_fits(bits: Seq<u32>) -> bool {
    &&& bits.len() <= 32
    &&& forall|k: int| 0 <= k < bits.len() ==> #[trigger] bits[k] / 32 < 1008
}

/// `p` with bit `i` of `y` OR-ed into the position named by `bits[i]`, for each `i < n`.
pub open spec fn inject_y(p: Seq<u32>, bits: Seq<u32>, y: u32, n: nat) -> Seq<u32>
    decreases n,
{
    if n == 0 {
        p
    } else {
        let q = inject_y(p, bits, y, (n - 1) as nat);
        let b = bits[n - 1];
        let w = (b / 32) as int;
        q.update(w, q[w] | (y_bit(y, n - 1) << (b % 32)))
    }
}

/// The payload with `y` applied through layout `bits`.
pub open spec fn with_y(p: Seq<u32>, bits: Seq<u32>, y: u32) -> Seq<u32> {
    inject_y(p, bits, y, bits.len())
}

/// The fragments of the last round's tail that do not depend on the last word.
pub open spec fn prefix_tweak(s: Seq<u32>, prev: u32, data: u32) -> Seq<u32> {
    s.update(10, spec_add(s[10], data)).update(11, s[11] ^ data).update(
        12,
        spec_add(s[12], s[8] ^ data),
    ).update(13, spec_add(s[13], spec_ror(data, data & 0x1F))).update(
        14,
        spec_sum(s[14], spec_ror(data, prev & 0x1F), 1007),
    ).update(15, spec_sum(s[15], spec_rol(data, prev >> 27u32), 1007))
}

/// The per-`Y` prefix state: 1007 rounds over the `Y`-mutated payload, plus the
/// parts of round 1007's tail that do not read word 1007.
pub open spec fn y_prefix_spec(p: Seq<u32>, s: Seq<u32>, bits: Seq<u32>, y: u32) -> Seq<u32> {
    let q = with_y(p, bits, y);
    prefix_tweak(calculate_spec(q, s, 1007), q[1005], q[1006])
}

/// The payload with `y` applied through `bits` and `x` written at word 1007.
pub open spec fn mutated(p: Seq<u32>, bits: Seq<u32>, y: u32, x: u32) -> Seq<u32> {
    with_y(p, bits, y).update(1007, x)
}

/// The state just before finalization for candidate `(y, x)`.
pub open spec fn full_state(p: Seq<u32>, s: Seq<u32>, bits: Seq<u32>, y: u32, x: u32) -> Seq<u32> {
    calculate_spec(mutated(p, bits, y, x), s, 1008)
}

/// The 48-bit checksum of candidate `(y, x)`.
pub open spec fn hash_spec(p: Seq<u32>, s: Seq<u32>, bits: Seq<u32>, y: u32, x: u32) -> u64 {
    finalize_spec(full_state(p, s, bits, y, x))
}

/// Reference hasher: the payload words and the seeded initial state.
pub struct CPUHasher {
    ipl3: [u32; 1008],
    state: [u32; 16],
}

impl CPUHasher {
    /// The payload words `P[0..1008]`.
    pub closed spec fn payload(&self) -> Seq<u32> {
        self.ipl3@
    }

    /// The seeded state `S` before the first round.
    pub closed spec fn initial(&self) -> Seq<u32> {
        self.state@
    }

    /// The payload has 1008 words and the state 16.
    pub proof fn lemma_lengths(&self)
        ensures
            self.payload().len() == 1008,
            self.initial().len() == 16,
    {
    }

    /// Wrapping 32-bit addition.
    pub fn add(a1: u32, a2: u32) -> (r: u32)
        ensures
            r == spec_add(a1, a2),
    {
        a1.wrapping_add(a2)
    }

    /// Wrapping 32-bit subtraction.
    pub fn sub(a1: u32, a2: u32) -> (r: u32)
        ensures
            r == spec_sub(a1, a2),
    {
        a1.wrapping_sub(a2)
    }

    /// Wrapping 32-bit multiplication.
    pub fn mul(a1: u32, a2: u32) -> (r: u32)
        ensures
            r == spec_mul(a1, a2),
    {
        a1.wrapping_mul(a2)
    }

    /// Left rotation by `s` modulo 32.
    pub fn rol(a: u32, s: u32) -> (r: u32)
        ensures
            r == spec_rol(a, s),
    {
        let k = s % 32;
        if k == 0 {
            a
        } else {
            (a << k) | (a >> (32 - k))
        }
    }

    /// Right rotation by `s` modulo 32.
    pub fn ror(a: u32, s: u32) -> (r: u32)
        ensures
            r == spec_ror(a, s),
    {
        let k = s % 32;
        if k == 0 {
            a
        } else {
            (a >> k) | (a << (32 - k))
        }
    }

    /// The multiply-then-fold primitive `spec_sum`.
    pub fn sum(a0: u32, a1: u32, a2: u32) -> (r: u32)
        ensures
            r == spec_sum(a0, a1, a2),
    {
        let m: u32 = if a1 == 0 { a2 } else { a1 };
        proof {
            let (x, y) = (a0 as int, m as int);
            assert(0 <= x * y <= 0xFFFF_FFFF * 0xFFFF_FFFF) by (nonlinear_arith)
                requires 0 <= x <= 0xFFFF_FFFF, 0 <= y <= 0xFFFF_FFFF;
        }
        let prod: u64 = (a0 as u64) * (m as u64);
        proof {
            assert(prod >> 32u64 == prod / 0x1_0000_0000) by (bit_vector);
            assert(prod & 0xFFFF_FFFFu64 == prod % 0x1_0000_0000) by (bit_vector);
            assert(prod >> 32u64 <= 0xFFFF_FFFF) by (bit_vector);
        }
        let hi = (prod >> 32) as u32;
        let lo = (prod & 0xFFFF_FFFF) as u32;
        let diff = hi.wrapping_sub(lo);
        if diff == 0 { a0 } else { diff }
    }

    /// Applies the head of round `i` to `state`.
    pub(crate) fn round_head_exec(state: &mut [u32; 16], prev: u32, data: u32, i: u32)
        ensures
            final(state)@ == round_head(old(state)@, prev, data, i),
    {
        let s6 = state[6];
        state[0] = Self::add(state[0], Self::sum(Self::sub(1007, i), data, i));
        state[1] = Self::sum(state[1], data, i);
        state[2] = state[2] ^ data;
        state[3] = Self::add(state[3], Self::sum(Self::add(data, 5), MAGIC, i));
        state[4] = Self::add(state[4], Self::ror(data, prev & 0x1F));
        state[5] = Self::add(state[5], Self::rol(data, prev >> 27));
        state[6] = if data < s6 {
            Self::add(state[3], s6) ^ Self::add(data, i)
        } else {
            Self::add(state[4], data) ^ s6
        };
        state[7] = Self::sum(state[7], Self::rol(data, prev & 0x1F), i);
        state[8] = Self::sum(state[8], Self::ror(data, prev >> 27), i);
        state[9] = if prev < data {
            Self::sum(state[9], data, i)
        } else {
            Self::add(state[9], data)
        };
        assert(state@ =~= round_head(old(state)@, prev, data, i));
    }

    /// Applies the tail of round `i` (the terms that read `next`) to `state`.
    fn round_tail_exec(state: &mut [u32; 16], prev: u32, data: u32, next: u32, i: u32)
        ensures
            final(state)@ == round_tail(old(state)@, prev, data, next, i),
    {
        state[10] = Self::sum(Self::add(state[10], data), next, i);
        state[11] = Self::sum(state[11] ^ data, next, i);
        state[12] = Self::add(state[12], state[8] ^ data);
        state[13] = Self::add(
            state[13],
            Self::add(Self::ror(data, data & 0x1F), Self::ror(next, next & 0x1F)),
        );
        state[14] = Self::sum(
            Self::sum(state[14], Self::ror(data, prev & 0x1F), i),
            Self::ror(next, data & 0x1F),
            i,
        );
        state[15] = Self::sum(
            Self::sum(state[15], Self::rol(data, prev >> 27), i),
            Self::rol(next, data >> 27),
            i,
        );
        assert(state@ =~= round_tail(old(state)@, prev, data, next, i));
    }

    /// Runs the main loop to round `min(end, 1008)` over `ipl3`; with `end == 0`
    /// no round runs.
    fn calculate(ipl3: &[u32; 1008], state: &mut [u32; 16], end: u32)
        ensures
            end == 0 ==> final(state)@ == old(state)@,
            end >= 1 ==> final(state)@ == calculate_spec(
                ipl3@,
                old(state)@,
                (if end > 1008 { 1008 } else { end }) as nat,
            ),
    {
        let end: u32 = if end > 1008 { 1008 } else { end };
        if end == 0 {
            return;
        }
        let ghost s0 = state@;
        let mut i: u32 = 1;
        while i < end
            invariant
                1 <= i <= end <= 1008,
                state@ == rounds(ipl3@, s0, (i - 1) as nat),
            decreases end - i,
        {
            let prev = ipl3[if i >= 2 { (i - 2) as usize } else { 0 }];
            let data = ipl3[(i - 1) as usize];
            let next = ipl3[i as usize];
            Self::round_head_exec(state, prev, data, i);
            Self::round_tail_exec(state, prev, data, next, i);
            i = i + 1;
        }
        let prev = ipl3[if end >= 2 { (end - 2) as usize } else { 0 }];
        let data = ipl3[(end - 1) as usize];
        Self::round_head_exec(state, prev, data, end);
    }

    /// The 48-bit checksum of a final state.
    pub fn finalize(state: &[u32; 16]) -> (r: u64)
        ensures
            r == finalize_spec(state@),
    {
        let mut b0 = state[0];
        let mut b1 = state[0];
        let mut b2 = state[0];
        let mut b3 = state[0];
        let mut i: u32 = 0;
        while i < 16
            invariant
                i <= 16,
                (b0, b1, b2, b3) == final_fold(state@, i as nat),
            decreases 16 - i,
        {
            let data = state[i as usize];
            b0 = Self::add(b0, Self::ror(data, data & 0x1F));
            b1 = if data < b0 { Self::add(b1, data) } else { Self::sum(b1, data, i) };
            b2 = if ((data & 0x02) >> 1) == (data & 0x01) {
                Self::add(b2, data)
            } else {
                Self::sum(b2, data, i)
            };
            b3 = if (data & 0x01) == 0x01 { b3 ^ data } else { Self::sum(b3, data, i) };
            i = i + 1;
        }
        let final_sum = Self::sum(b0, b1, 16);
        let final_xor = b3 ^ b2;
        (((final_sum & 0xFFFF) as u64) << 32) | (final_xor as u64)
    }

    /// Decodes the payload and seeds the state.
    pub fn new(ipl3_raw_data: &[u8; 4032], seed: u8) -> (h: Self)
        ensures
            h.payload() == words_of(ipl3_raw_data@),
            h.initial() == Seq::new(16, |k: int| seed_word(seed, words_of(ipl3_raw_data@)[0])),
    {
        let mut ipl3 = [0u32; 1008];
        let mut k: usize = 0;
        while k < 1008
            invariant
                k <= 1008,
                forall|j: int| 0 <= j < k ==> ipl3@[j] == be_word(ipl3_raw_data@, j),
            decreases 1008 - k,
        {
            ipl3[k] = ((ipl3_raw_data[4 * k] as u32) << 24) | ((ipl3_raw_data[4 * k + 1] as u32)
                << 16) | ((ipl3_raw_data[4 * k + 2] as u32) << 8) | (ipl3_raw_data[4 * k
                + 3] as u32);
            k = k + 1;
        }
        assert(ipl3@ =~= words_of(ipl3_raw_data@));
        let v = Self::add(Self::mul(MAGIC, seed as u32), 1) ^ ipl3[0];
        let state = [v; 16];
        assert(state@ =~= Seq::new(16, |k: int| seed_word(seed, words_of(ipl3_raw_data@)[0])));
        Self { ipl3, state }
    }

    /// The seeded state before the first round.
    pub fn state(&self) -> (r: [u32; 16])
        ensures
            r@ == self.initial(),
    {
        self.state
    }

    /// ORs bit `i` of `y` into the payload position named by `y_bits[i]`, for each `i`.
    /// Bits already set there stay set, whatever `y` holds.
    fn inject(ipl3: &mut [u32; 1008], y_bits: &Vec<u32>, y: u32)
        requires
            layout_fits(y_bits@),
        ensures
            final(ipl3)@ == with_y(old(ipl3)@, y_bits@, y),
    {
        let ghost p = ipl3@;
        let mut i: usize = 0;
        while i < y_bits.len()
            invariant
                i <= y_bits.len() <= 32,
                layout_fits(y_bits@),
                ipl3@ == inject_y(p, y_bits@, y, i as nat),
            decreases y_bits.len() - i,
        {
            let b = y_bits[i];
            assert(y_bits@[i as int] / 32 < 1008);
            let index = (b / 32) as usize;
            let bitoffset = b % 32;
            let bit = (y >> (i as u32)) & 0x01;
            ipl3[index] = ipl3[index] | (bit << bitoffset);
            i = i + 1;
        }
    }

    /// The per-`Y` prefix state that a search hands to the per-`X` stage.
    ///
    /// The bits of `y` are OR-ed in, so the positions that `y_bits` names must
    /// be zero in the payload for each `y` to give a distinct payload.
    pub fn y_round(&self, y_bits: Vec<u32>, y: u32) -> (r: [u32; 16])
        requires
            layout_fits(y_bits@),
        ensures
            r@ == y_prefix_spec(self.payload(), self.initial(), y_bits@, y),
    {
        let mut ipl3 = self.ipl3;
        let mut state = self.state;
        Self::inject(&mut ipl3, &y_bits, y);
        Self::calculate(&ipl3, &mut state, 1007);
        let prev = ipl3[1005];
        let data = ipl3[1006];
        state[10] = Self::add(state[10], data);
        state[11] = state[11] ^ data;
        state[12] = Self::add(state[12], state[8] ^ data);
        state[13] = Self::add(state[13], Self::ror(data, data & 0x1F));
        state[14] = Self::sum(state[14], Self::ror(data, prev & 0x1F), 1007);
        state[15] = Self::sum(state[15], Self::rol(data, prev >> 27), 1007);
        assert(state@ =~= y_prefix_spec(self.payload(), self.initial(), y_bits@, y));
        state
    }

    /// Word 1006 of the payload with `y` applied through `y_bits`.
    pub fn y_data(&self, y_bits: &Vec<u32>, y: u32) -> (r: u32)
        requires
            layout_fits(y_bits@),
        ensures
            r == with_y(self.payload(), y_bits@, y)[1006],
    {
        let mut ipl3 = self.ipl3;
        Self::inject(&mut ipl3, y_bits, y);
        ipl3[1006]
    }

    /// The full checksum of candidate `(y, x)`.
    ///
    /// The bits of `y` are OR-ed in, so the positions that `y_bits` names must
    /// be zero in the payload for each `y` to give a distinct payload.
    pub fn verify(&self, y_bits: Vec<u32>, y: u32, x: u32) -> (r: u64)
        requires
            layout_fits(y_bits@),
        ensures
            r == hash_spec(self.payload(), self.initial(), y_bits@, y, x),
    {
        let mut ipl3 = self.ipl3;
        let mut state = self.state;
        Self::inject(&mut ipl3, &y_bits, y);
        ipl3[1007] = x;
        Self::calculate(&ipl3, &mut state, 1008);
        Self::finalize(&state)
    }
}

} // verus!
