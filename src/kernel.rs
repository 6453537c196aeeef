//! The per-candidate stage of the search: completing the checksum of one `X`
//! from the per-`Y` prefix state, and sweeping one dispatch worth of candidates.
use vstd::prelude::*;
use crate::cpu::{
    CPUHasher, calculate_spec, finalize_spec, full_state, prefix_tweak, rounds, round_head,
    round_tail, spec_add, spec_rol, spec_ror, spec_sum, with_y, inject_y, layout_fits,
    y_prefix_spec, prev_index, hash_spec,
};

verus! {

/// Threads per workgroup.
pub const LOCAL_SIZE: u64 = 256;

/// Number of values of `X`.
pub const X_SPACE: u64 = 0x1_0000_0000;

/// The state before finalization for candidate `x`, given the prefix state and
/// `data`, the mutated payload's word 1006: the `x`-dependent terms of round
/// 1007's tail, then the head of round 1008 over `x`.
pub open spec fn candidate_state(pre: Seq<u32>, data: u32, x: u32) -> Seq<u32> {
    let t = pre.update(10, spec_sum(pre[10], x, 1007)).update(
        11,
        spec_sum(pre[11], x, 1007),
    ).update(13, spec_add(pre[13], spec_ror(x, x & 0x1F))).update(
        14,
        spec_sum(pre[14], spec_ror(x, data & 0x1F), 1007),
    ).update(15, spec_sum(pre[15], spec_rol(x, data >> 27u32), 1007));
    round_head(t, data, x, 1008)
}

/// The checksum of candidate `x` from the prefix state.
pub open spec fn candidate_checksum_spec(pre: Seq<u32>, data: u32, x: u32) -> u64 {
    finalize_spec(candidate_state(pre, data, x))
}

/// Candidates per dispatch: `wx * wy * wz * 256`, at most the whole `X` space.
pub open spec fn dispatch_size(wg: (u32, u32, u32)) -> u64 {
    let n = wg.0 * wg.1 * wg.2 * LOCAL_SIZE;
    if n > X_SPACE { X_SPACE } else { n as u64 }
}

/// End of the candidates one dispatch from `x_offset` covers.
pub open spec fn x_hi(x_offset: u64, wg: (u32, u32, u32)) -> int {
    if x_offset + dispatch_size(wg) > X_SPACE {
        X_SPACE as int
    } else {
        x_offset + dispatch_size(wg)
    }
}

/// What one dispatch reports.
#[derive(PartialEq, Eq, Structural, Debug, Clone, Copy)]
pub enum GPUHasherResult {
    /// A candidate `(Y, X)` whose checksum equals the target.
    Found(u32, u32),
    /// No hit; the next dispatch starts `step` candidates further.
    Continue(u64),
    /// No hit, and the whole `X` space has been swept.
    End,
}

/// Completes the state of candidate `x` from the prefix state.
pub fn candidate_state_exec(prefix: &[u32; 16], data: u32, x: u32) -> (r: [u32; 16])
    ensures
        r@ == candidate_state(prefix@, data, x),
{
    let mut s = *prefix;
    s[10] = CPUHasher::sum(s[10], x, 1007);
    s[11] = CPUHasher::sum(s[11], x, 1007);
    s[13] = CPUHasher::add(s[13], CPUHasher::ror(x, x & 0x1F));
    s[14] = CPUHasher::sum(s[14], CPUHasher::ror(x, data & 0x1F), 1007);
    s[15] = CPUHasher::sum(s[15], CPUHasher::rol(x, data >> 27), 1007);
    let ghost t = s@;
    assert(t =~= prefix@.update(10, spec_sum(prefix@[10], x, 1007)).update(
        11,
        spec_sum(prefix@[11], x, 1007),
    ).update(13, spec_add(prefix@[13], spec_ror(x, x & 0x1F))).update(
        14,
        spec_sum(prefix@[14], spec_ror(x, data & 0x1F), 1007),
    ).update(15, spec_sum(prefix@[15], spec_rol(x, data >> 27u32), 1007)));
    CPUHasher::round_head_exec(&mut s, data, x, 1008);
    s
}

/// The checksum of candidate `x` from the prefix state.
pub fn candidate_checksum(prefix: &[u32; 16], data: u32, x: u32) -> (r: u64)
    ensures
        r == candidate_checksum_spec(prefix@, data, x),
{
    let s = candidate_state_exec(prefix, data, x);
    CPUHasher::finalize(&s)
}

/// Candidates per dispatch for a workgroup configuration.
pub fn dispatch_step(workgroups: (u32, u32, u32)) -> (r: u64)
    ensures
        r == dispatch_size(workgroups),
{
    let (wx, wy, wz) = workgroups;
    proof {
        let (a, b, c) = (wx as int, wy as int, wz as int);
        assert(0 <= a * b <= 0xFFFF_FFFF * 0xFFFF_FFFF) by (nonlinear_arith)
            requires 0 <= a <= 0xFFFF_FFFF, 0 <= b <= 0xFFFF_FFFF;
        assert(0 <= a * b * c <= 0xFFFF_FFFF * 0xFFFF_FFFF * 0xFFFF_FFFF) by (nonlinear_arith)
            requires 0 <= a * b <= 0xFFFF_FFFF * 0xFFFF_FFFF, 0 <= c <= 0xFFFF_FFFF;
        assert(0 <= a * b * c * 256 <= 0xFFFF_FFFF * 0xFFFF_FFFF * 0xFFFF_FFFF * 256) by (nonlinear_arith)
            requires 0 <= a * b * c <= 0xFFFF_FFFF * 0xFFFF_FFFF * 0xFFFF_FFFF;
    }
    let n: u128 = (wx as u128) * (wy as u128) * (wz as u128) * (LOCAL_SIZE as u128);
    if n > X_SPACE as u128 {
        X_SPACE
    } else {
        n as u64
    }
}

/// One dispatch: scans candidates `x_offset .. x_offset + step` (clipped to the
/// `X` space) for the first whose checksum equals `target`.
pub fn x_round(
    target: u64,
    prefix: &[u32; 16],
    data: u32,
    y: u32,
    x_offset: u64,
    workgroups: (u32, u32, u32),
) -> (r: GPUHasherResult)
    requires
        x_offset <= X_SPACE,
    ensures
        r is Found ==> r->Found_0 == y,
        r is Found ==> x_offset <= r->Found_1 < x_hi(x_offset, workgroups),
        r is Found ==> candidate_checksum_spec(prefix@, data, r->Found_1) == target,
        r is Found ==> forall|c: u32|
            x_offset <= c < r->Found_1 ==> candidate_checksum_spec(prefix@, data, c) != target,
        !(r is Found) ==> forall|c: u32|
            x_offset <= c < x_hi(x_offset, workgroups) ==> candidate_checksum_spec(
                prefix@,
                data,
                c,
            ) != target,
        !(r is Found) ==> r == (if 0 < dispatch_size(workgroups) && x_offset + dispatch_size(
            workgroups,
        ) < X_SPACE {
            GPUHasherResult::Continue(dispatch_size(workgroups))
        } else {
            GPUHasherResult::End
        }),
{
    let step = dispatch_step(workgroups);
    let hi: u64 = if step > X_SPACE - x_offset { X_SPACE } else { x_offset + step };
    let mut c: u64 = x_offset;
    while c < hi
        invariant
            x_offset <= c <= hi <= X_SPACE,
            hi == x_hi(x_offset, workgroups),
            step == dispatch_size(workgroups),
            forall|d: u32|
                x_offset <= d < c ==> candidate_checksum_spec(prefix@, data, d) != target,
        decreases hi - c,
    {
        let cx = c as u32;
        if candidate_checksum(prefix, data, cx) == target {
            return GPUHasherResult::Found(y, cx);
        }
        c = c + 1;
    }
    if 0 < step && step < X_SPACE - x_offset {
        GPUHasherResult::Continue(step)
    } else {
        GPUHasherResult::End
    }
}

proof fn lemma_inject_len(p: Seq<u32>, bits: Seq<u32>, y: u32, n: nat)
    requires
        p.len() == 1008,
        layout_fits(bits),
        n <= bits.len(),
    ensures
        inject_y(p, bits, y, n).len() == 1008,
    decreases n,
{
    if n > 0 {
        lemma_inject_len(p, bits, y, (n - 1) as nat);
        assert(bits[n - 1] / 32 < 1008);
    }
}

proof fn lemma_rounds_len(p: Seq<u32>, s: Seq<u32>, n: nat)
    requires
        s.len() == 16,
    ensures
        rounds(p, s, n).len() == 16,
    decreases n,
{
    if n > 0 {
        lemma_rounds_len(p, s, (n - 1) as nat);
    }
}

proof fn lemma_rounds_agree(p1: Seq<u32>, p2: Seq<u32>, s: Seq<u32>, n: nat)
    requires
        n < p1.len(),
        n < p2.len(),
        forall|j: int| 0 <= j <= n ==> p1[j] == p2[j],
    ensures
        rounds(p1, s, n) == rounds(p2, s, n),
    decreases n,
{
    if n > 0 {
        lemma_rounds_agree(p1, p2, s, (n - 1) as nat);
        assert(p1[prev_index(n as int)] == p2[prev_index(n as int)]);
    }
}

/// Prefix correctness: completing the per-`Y` prefix state with candidate `x`
/// gives exactly the state that the full computation over the payload mutated
/// by `(y, x)` reaches before finalization, so the two checksums agree.
pub proof fn lemma_prefix_correct(p: Seq<u32>, s: Seq<u32>, bits: Seq<u32>, y: u32, x: u32)
    requires
        p.len() == 1008,
        s.len() == 16,
        layout_fits(bits),
    ensures
        candidate_state(y_prefix_spec(p, s, bits, y), with_y(p, bits, y)[1006], x)
            == full_state(p, s, bits, y, x),
        candidate_checksum_spec(y_prefix_spec(p, s, bits, y), with_y(p, bits, y)[1006], x)
            == hash_spec(p, s, bits, y, x),
{
    let q = with_y(p, bits, y);
    lemma_inject_len(p, bits, y, bits.len());
    let q2 = q.update(1007, x);
    lemma_rounds_agree(q, q2, s, 1006);
    lemma_rounds_len(q, s, 1006);
    let r6 = rounds(q, s, 1006);
    let h = round_head(r6, q[1005], q[1006], 1007);
    assert(calculate_spec(q, s, 1007) == h);
    assert(rounds(q2, s, 1007) == round_tail(h, q[1005], q[1006], x, 1007));
    let pre = prefix_tweak(h, q[1005], q[1006]);
    let data = q[1006];
    let a = spec_ror(data, data & 0x1F);
    let b = spec_ror(x, x & 0x1F);
    assert(spec_add(spec_add(h[13], a), b) == spec_add(h[13], spec_add(a, b)));
    let t = pre.update(10, spec_sum(pre[10], x, 1007)).update(
        11,
        spec_sum(pre[11], x, 1007),
    ).update(13, spec_add(pre[13], spec_ror(x, x & 0x1F))).update(
        14,
        spec_sum(pre[14], spec_ror(x, data & 0x1F), 1007),
    ).update(15, spec_sum(pre[15], spec_rol(x, data >> 27u32), 1007));
    assert(t =~= round_tail(h, q[1005], q[1006], x, 1007));
}

} // verus!
