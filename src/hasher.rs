//! The search driver: walks `Y` upwards, primes each round with the prefix
//! state, and checks every reported hit against the reference checksum. The
//! dispatches themselves are performed by the caller, which feeds their
//! outcome back one at a time.
use vstd::prelude::*;
use vstd::arithmetic::power2::{
    pow2, lemma_pow2_unfold, lemma_pow2_strictly_increases, lemma2_to64,
};
use vstd::string::StringExecFns;
use crate::text::{padded, push_digits};
use crate::cpu::{
    CPUHasher, hash_spec, layout_fits, seed_word, with_y, words_of, y_prefix_spec,
};
use crate::kernel::{
    GPUHasherResult, X_SPACE, x_hi, candidate_checksum_spec, dispatch_size, dispatch_step,
    lemma_prefix_correct, x_round,
};

verus! {

/// Exclusive bound of a `Y` bit index: bits of payload words `0..=1006`.
pub const Y_BIT_LIMIT: u32 = 32224;

/// Most bits a layout may name.
pub const MAX_Y_BITS: usize = 32;

/// A layout the search accepts: at most 32 bit indices, strictly ascending,
/// each below `Y_BIT_LIMIT`.
pub open spec fn layout_valid(bits: Seq<u32>) -> bool {
    &&& bits.len() <= MAX_Y_BITS
    &&& forall|k: int| 0 <= k < bits.len() ==> #[trigger] bits[k] < Y_BIT_LIMIT
    &&& forall|j: int, k: int| 0 <= j < k < bits.len() ==> bits[j] < bits[k]
}

/// The largest `Y` of a layout with `n` bits.
pub open spec fn y_max(n: nat) -> int {
    pow2(n) - 1
}

/// The `Y` examined after round `y` ends without a hit, if any.
pub open spec fn next_y(y: int, n: nat) -> Option<int> {
    if y < y_max(n) { Some(y + 1) } else { None }
}

/// The `Y` examined in round `k` of a search that starts at `y0`, if the search
/// is still running then.
pub open spec fn round_y(y0: int, n: nat, k: nat) -> Option<int>
    decreases k,
{
    if k == 0 {
        if 0 <= y0 <= y_max(n) { Some(y0) } else { None }
    } else {
        match round_y(y0, n, (k - 1) as nat) {
            Some(y) => next_y(y, n),
            None => None,
        }
    }
}

/// The hit `(Y, X)` that a step accepted, if it accepted one.
pub open spec fn accepted_hit(r: Result<RoundStep, HasherError>) -> Option<(u32, u32)> {
    match r {
        Ok(RoundStep::Done(HasherResult::Found(y, x))) => Some((y, x)),
        _ => None,
    }
}

/// No `X` completes candidate `y` to `target`.
pub open spec fn no_hit(p: Seq<u32>, s: Seq<u32>, bits: Seq<u32>, y: u32, target: u64) -> bool {
    forall|x: u32| hash_spec(p, s, bits, y, x) != target
}

/// What a whole round over `Y = y` owes, for a layout with `bits`, when it
/// returns `r` and leaves the search at `y_after`: the least `X` that hits
/// the target, or, when none does, the next `Y` or the end of the search.
pub open spec fn round_outcome(
    p: Seq<u32>,
    s: Seq<u32>,
    bits: Seq<u32>,
    y: u32,
    target: u64,
    r: HasherResult,
    y_after: u32,
) -> bool {
    match r {
        HasherResult::Found(fy, fx) => {
            &&& fy == y
            &&& hash_spec(p, s, bits, y, fx) == target
            &&& forall|x: u32| x < fx ==> hash_spec(p, s, bits, y, x) != target
            &&& y_after == y
        },
        HasherResult::Continue => {
            &&& no_hit(p, s, bits, y, target)
            &&& y < y_max(bits.len())
            &&& y_after == y + 1
        },
        HasherResult::End => {
            &&& no_hit(p, s, bits, y, target)
            &&& y == y_max(bits.len())
            &&& y_after == y
        },
    }
}

/// No `Y` with `lo <= Y < hi` has a hit.
pub open spec fn no_hit_between(
    p: Seq<u32>,
    s: Seq<u32>,
    bits: Seq<u32>,
    lo: int,
    hi: int,
    target: u64,
) -> bool {
    forall|y: u32| lo <= y < hi ==> #[trigger] no_hit(p, s, bits, y, target)
}

/// The outcome of a search round.
#[derive(PartialEq, Eq, Structural, Debug, Clone, Copy)]
pub enum HasherResult {
    /// A verified collision `(Y, X)`.
    Found(u32, u32),
    /// No collision for this `Y`; the next `Y` is up.
    Continue,
    /// The `Y` space is exhausted.
    End,
}

/// What can stop a search.
#[derive(Debug)]
pub enum HasherError {
    /// A reported hit `(Y, X)` whose reference checksum is the third value.
    VerifyError(u32, u32, u64),
    /// The requested dispatch adapter does not exist.
    GPUAdapterOutOfBounds,
    /// The dispatch backend failed; the message says how.
    GPUHasherError(String),
    /// Reading or writing the ROM failed; the message says how.
    IoError(String),
    /// The `Y` bit layout is too wide, out of range, or not strictly ascending.
    ConfigError,
}

impl HasherError {
    /// A description for the user.
    pub fn message(&self) -> (r: String)
        ensures
            match *self {
                HasherError::VerifyError(y, x, c) => r@ == "GPU Hasher result is wrong: "@ + padded(
                    y as nat,
                    16,
                    8,
                ) + " "@ + padded(x as nat, 16, 8) + " | 0x"@ + padded(c as nat, 16, 12),
                HasherError::GPUAdapterOutOfBounds => r@ == "Selected GPU adapter doesn't exist"@,
                HasherError::GPUHasherError(m) => r@ == m@,
                HasherError::IoError(m) => r@ == m@,
                HasherError::ConfigError => r@ == "invalid Y bit layout"@,
            },
    {
        match self {
            HasherError::VerifyError(y, x, verify_checksum) => {
                let mut m = String::from_str("GPU Hasher result is wrong: ");
                push_digits(&mut m, *y as u64, 16, 8);
                m.append(" ");
                push_digits(&mut m, *x as u64, 16, 8);
                m.append(" | 0x");
                push_digits(&mut m, *verify_checksum, 16, 12);
                m
            },
            HasherError::GPUAdapterOutOfBounds => String::from_str(
                "Selected GPU adapter doesn't exist",
            ),
            HasherError::GPUHasherError(message) => message.clone(),
            HasherError::IoError(message) => message.clone(),
            HasherError::ConfigError => String::from_str("invalid Y bit layout"),
        }
    }
}

/// What the caller does next within a round.
#[derive(PartialEq, Eq, Structural, Debug, Clone, Copy)]
pub enum RoundStep {
    /// Dispatch the candidates starting at this `X` offset.
    Dispatch(u64),
    /// The round is over.
    Done(HasherResult),
}

/// Search state: the reference hasher, target, layout and current `Y`.
pub struct Hasher {
    cpu: CPUHasher,
    workgroup_configuration: (u32, u32, u32),
    target_checksum: u64,
    y_bits: Vec<u32>,
    y: u32,
}

impl Hasher {
    pub closed spec fn wf(&self) -> bool {
        layout_valid(self.y_bits@)
    }

    pub closed spec fn payload(&self) -> Seq<u32> {
        self.cpu.payload()
    }

    pub closed spec fn initial(&self) -> Seq<u32> {
        self.cpu.initial()
    }

    pub closed spec fn bits(&self) -> Seq<u32> {
        self.y_bits@
    }

    pub closed spec fn target(&self) -> u64 {
        self.target_checksum
    }

    pub closed spec fn workgroups(&self) -> (u32, u32, u32) {
        self.workgroup_configuration
    }

    pub closed spec fn current_y(&self) -> u32 {
        self.y
    }

    /// Checks a layout.
    pub fn layout_is_valid(y_bits: &Vec<u32>) -> (r: bool)
        ensures
            r == layout_valid(y_bits@),
    {
        if y_bits.len() > MAX_Y_BITS {
            return false;
        }
        let mut i: usize = 0;
        while i < y_bits.len()
            invariant
                i <= y_bits.len() <= MAX_Y_BITS,
                forall|k: int| 0 <= k < i ==> #[trigger] y_bits@[k] < Y_BIT_LIMIT,
                forall|j: int, k: int| 0 <= j < k < i ==> y_bits@[j] < y_bits@[k],
            decreases y_bits.len() - i,
        {
            if y_bits[i] >= Y_BIT_LIMIT {
                return false;
            }
            if i > 0 && y_bits[i - 1] >= y_bits[i] {
                return false;
            }
            i = i + 1;
        }
        true
    }

    /// A search over `ipl3`, seeded with `seed`, for `target_checksum`, starting at `Y = 0`.
    ///
    /// `Y` is OR-ed into the payload bits that `y_bits` names, so those bits
    /// should be zero in `ipl3`; where one is set, the `Y` values that differ
    /// only in that bit hash alike and the search covers fewer payloads.
    pub fn new(
        ipl3: &[u8; 4032],
        workgroup_configuration: (u32, u32, u32),
        seed: u8,
        target_checksum: u64,
        y_bits: Vec<u32>,
    ) -> (r: Result<Self, HasherError>)
        ensures
            r is Err <==> !layout_valid(y_bits@),
            r is Err ==> r->Err_0 is ConfigError,
            r is Ok ==> {
                let h = r->Ok_0;
                &&& h.wf()
                &&& h.payload() == words_of(ipl3@)
                &&& h.initial() == Seq::new(16, |k: int| seed_word(seed, words_of(ipl3@)[0]))
                &&& h.bits() == y_bits@
                &&& h.target() == target_checksum
                &&& h.workgroups() == workgroup_configuration
                &&& h.current_y() == 0
            },
    {
        if !Self::layout_is_valid(&y_bits) {
            return Err(HasherError::ConfigError);
        }
        let cpu = CPUHasher::new(ipl3, seed);
        Ok(Self { cpu, workgroup_configuration, target_checksum, y_bits, y: 0 })
    }

    pub fn set_y(&mut self, y: u32)
        ensures
            final(self).current_y() == y,
            final(self).wf() == old(self).wf(),
            final(self).payload() == old(self).payload(),
            final(self).initial() == old(self).initial(),
            final(self).bits() == old(self).bits(),
            final(self).target() == old(self).target(),
            final(self).workgroups() == old(self).workgroups(),
    {
        self.y = y;
    }

    pub fn get_y(&self) -> (r: u32)
        ensures
            r == self.current_y(),
    {
        self.y
    }

    pub fn workgroup_configuration(&self) -> (r: (u32, u32, u32))
        ensures
            r == self.workgroups(),
    {
        self.workgroup_configuration
    }

    pub fn target_checksum(&self) -> (r: u64)
        ensures
            r == self.target(),
    {
        self.target_checksum
    }

    /// The largest `Y` of this search's layout, `2^|L| - 1`.
    pub fn y_limit(&self) -> (r: u64)
        requires
            self.wf(),
        ensures
            r == y_max(self.bits().len()),
            r <= u32::MAX,
    {
        let n = self.y_bits.len();
        let mut p: u64 = 1;
        let mut i: usize = 0;
        proof {
            lemma2_to64();
        }
        while i < n
            invariant
                i <= n <= 32,
                p == pow2(i as nat),
            decreases n - i,
        {
            proof {
                lemma2_to64();
                lemma_pow2_unfold((i + 1) as nat);
                lemma_pow2_strictly_increases(i as nat, 32);
            }
            p = p * 2;
            i = i + 1;
        }
        proof {
            lemma_y_max_bound(n as nat);
        }
        p - 1
    }

    /// Opens the round for the current `Y`: its prefix state, or `None` once
    /// `Y` is past the layout's largest value.
    pub fn start_round(&self) -> (r: Option<[u32; 16]>)
        requires
            self.wf(),
        ensures
            r is None <==> self.current_y() > y_max(self.bits().len()),
            r is Some ==> r->Some_0@ == y_prefix_spec(
                self.payload(),
                self.initial(),
                self.bits(),
                self.current_y(),
            ),
    {
        if self.y as u64 > self.y_limit() {
            return None;
        }
        proof {
            lemma_valid_fits(self.y_bits@);
        }
        Some(self.cpu.y_round(self.y_bits.clone(), self.y))
    }

    /// The payload word 1006 under the current `Y`: the `data` word that each
    /// candidate of the round completes the checksum with.
    pub fn round_data(&self) -> (r: u32)
        requires
            self.wf(),
        ensures
            r == with_y(self.payload(), self.bits(), self.current_y())[1006],
    {
        proof {
            lemma_valid_fits(self.y_bits@);
        }
        self.cpu.y_data(&self.y_bits, self.y)
    }

    /// Takes the outcome of the dispatch at `x_offset` and decides what follows.
    /// A hit is accepted only if the reference checksum confirms it; a round
    /// that ends without one moves on to the next `Y`, or ends the search.
    pub fn compute_round(&mut self, x_offset: u64, result: GPUHasherResult) -> (r: Result<
        RoundStep,
        HasherError,
    >)
        requires
            old(self).wf(),
        ensures
            final(self).wf(),
            final(self).payload() == old(self).payload(),
            final(self).initial() == old(self).initial(),
            final(self).bits() == old(self).bits(),
            final(self).target() == old(self).target(),
            final(self).workgroups() == old(self).workgroups(),
            accepted_hit(r) is Some ==> hash_spec(
                old(self).payload(),
                old(self).initial(),
                old(self).bits(),
                accepted_hit(r)->Some_0.0,
                accepted_hit(r)->Some_0.1,
            ) == old(self).target(),
            match result {
                GPUHasherResult::Found(y, x) => {
                    let h = hash_spec(old(self).payload(), old(self).initial(), old(self).bits(), y, x);
                    &&& final(self).current_y() == old(self).current_y()
                    &&& h == old(self).target() ==> r == Ok::<RoundStep, HasherError>(RoundStep::Done(HasherResult::Found(y, x)))
                    &&& h != old(self).target() ==> (r is Err && r->Err_0 == HasherError::VerifyError(y, x, h))
                },
                GPUHasherResult::Continue(step) => {
                    &&& final(self).current_y() == old(self).current_y()
                    &&& x_offset + step <= u64::MAX ==> r == Ok::<RoundStep, HasherError>(
                        RoundStep::Dispatch((x_offset + step) as u64),
                    )
                    &&& x_offset + step > u64::MAX ==> (r is Err && r->Err_0 is GPUHasherError)
                },
                GPUHasherResult::End => match next_y(old(self).current_y() as int, old(self).bits().len()) {
                    Some(n) => {
                        &&& final(self).current_y() == n
                        &&& r == Ok::<RoundStep, HasherError>(RoundStep::Done(HasherResult::Continue))
                    },
                    None => {
                        &&& final(self).current_y() == old(self).current_y()
                        &&& r == Ok::<RoundStep, HasherError>(RoundStep::Done(HasherResult::End))
                    },
                },
            },
    {
        match result {
            GPUHasherResult::Found(y, x) => {
                proof {
                    lemma_valid_fits(self.y_bits@);
                }
                let verify_checksum = self.cpu.verify(self.y_bits.clone(), y, x);
                if verify_checksum != self.target_checksum {
                    return Err(HasherError::VerifyError(y, x, verify_checksum));
                }
                Ok(RoundStep::Done(HasherResult::Found(y, x)))
            },
            GPUHasherResult::Continue(x_step) => match x_offset.checked_add(x_step) {
                Some(next) => Ok(RoundStep::Dispatch(next)),
                None => Err(HasherError::GPUHasherError("X offset overflow".to_string())),
            },
            GPUHasherResult::End => {
                if self.y as u64 >= self.y_limit() {
                    return Ok(RoundStep::Done(HasherResult::End));
                }
                self.y = self.y + 1;
                Ok(RoundStep::Done(HasherResult::Continue))
            },
        }
    }
}

/// Search order: a search started at `y0` examines `y0, y0 + 1, ...` in turn,
/// up to and including the layout's largest `Y`, and nothing after it.
pub proof fn lemma_search_order(y0: int, n: nat, k: nat)
    ensures
        round_y(y0, n, k) == (if 0 <= y0 && y0 + k <= y_max(n) {
            Some(y0 + k)
        } else {
            None::<int>
        }),
    decreases k,
{
    if k > 0 {
        lemma_search_order(y0, n, (k - 1) as nat);
    }
}

/// Determinism: the checksum of a candidate depends on the payload, the seeded
/// state, the layout and `(y, x)` alone, so two hashers built from the same
/// bytes and seed agree on every candidate.
pub proof fn lemma_deterministic(a: CPUHasher, b: CPUHasher, bits: Seq<u32>, y: u32, x: u32)
    requires
        a.payload() == b.payload(),
        a.initial() == b.initial(),
    ensures
        hash_spec(a.payload(), a.initial(), bits, y, x) == hash_spec(
            b.payload(),
            b.initial(),
            bits,
            y,
            x,
        ),
{
}

/// The largest `Y` of a layout of at most 32 bits fits in a `u32`.
pub proof fn lemma_y_max_bound(n: nat)
    requires
        n <= 32,
    ensures
        0 <= y_max(n) <= u32::MAX,
{
    lemma2_to64();
    vstd::arithmetic::power2::lemma_pow2_pos(n);
    if n < 32 {
        lemma_pow2_strictly_increases(n, 32);
    }
}

impl Hasher {
    /// Runs the round for the current `Y`: sweeps the whole `X` space one
    /// dispatch at a time from offset 0, stops at the first hit, which the
    /// reference checksum confirms, and otherwise moves on to the next `Y` or
    /// ends the search. A `Y` past the layout's largest value ends the search
    /// at once; a workgroup configuration that dispatches no candidate is an
    /// error, since it could never sweep the space.
    #[verifier::rlimit(50)]
    pub fn run_round(&mut self) -> (r: Result<HasherResult, HasherError>)
        requires
            old(self).wf(),
        ensures
            final(self).wf(),
            final(self).payload() == old(self).payload(),
            final(self).initial() == old(self).initial(),
            final(self).bits() == old(self).bits(),
            final(self).target() == old(self).target(),
            final(self).workgroups() == old(self).workgroups(),
            old(self).current_y() > y_max(old(self).bits().len()) ==> r == Ok::<
                HasherResult,
                HasherError,
            >(HasherResult::End) && final(self).current_y() == old(self).current_y(),
            old(self).current_y() <= y_max(old(self).bits().len()) && dispatch_size(
                old(self).workgroups(),
            ) == 0 ==> r is Err && r->Err_0 is GPUHasherError && final(self).current_y() == old(
                self,
            ).current_y(),
            old(self).current_y() <= y_max(old(self).bits().len()) && dispatch_size(
                old(self).workgroups(),
            ) > 0 ==> r is Ok && round_outcome(
                old(self).payload(),
                old(self).initial(),
                old(self).bits(),
                old(self).current_y(),
                old(self).target(),
                r->Ok_0,
                final(self).current_y(),
            ),
    {
        let prefix = match self.start_round() {
            None => {
                return Ok(HasherResult::End);
            },
            Some(prefix) => prefix,
        };
        let data = self.round_data();
        let ghost p = old(self).payload();
        let ghost s = old(self).initial();
        let ghost bits = old(self).bits();
        let ghost y0 = old(self).current_y();
        let ghost t = old(self).target();
        let ghost wg = old(self).workgroups();
        if dispatch_step(self.workgroup_configuration) == 0 {
            return Err(
                HasherError::GPUHasherError(
                    "the workgroup configuration dispatches no candidates".to_string(),
                ),
            );
        }
        proof {
            self.cpu.lemma_lengths();
            lemma_valid_fits(bits);
            assert forall|c: u32|
                #[trigger] candidate_checksum_spec(prefix@, data, c) == hash_spec(
                    p,
                    s,
                    bits,
                    y0,
                    c,
                ) by {
                lemma_prefix_correct(p, s, bits, y0, c);
            }
        }
        let mut x_offset: u64 = 0;
        loop
            invariant
                self.wf(),
                self.payload() == p,
                self.initial() == s,
                self.bits() == bits,
                self.current_y() == y0,
                self.target() == t,
                self.workgroups() == wg,
                p == old(self).payload(),
                s == old(self).initial(),
                bits == old(self).bits(),
                y0 == old(self).current_y(),
                t == old(self).target(),
                wg == old(self).workgroups(),
                y0 <= y_max(bits.len()),
                dispatch_size(wg) > 0,
                x_offset < X_SPACE,
                forall|c: u32|
                    #[trigger] candidate_checksum_spec(prefix@, data, c) == hash_spec(
                        p,
                        s,
                        bits,
                        y0,
                        c,
                    ),
                forall|c: u32| c < x_offset ==> hash_spec(p, s, bits, y0, c) != t,
            decreases X_SPACE - x_offset,
        {
            let result = x_round(
                self.target_checksum,
                &prefix,
                data,
                self.y,
                x_offset,
                self.workgroup_configuration,
            );
            match self.compute_round(x_offset, result) {
                Ok(RoundStep::Dispatch(next)) => {
                    proof {
                        assert(result is Continue);
                        assert(x_hi(x_offset, wg) == next);
                        assert forall|c: u32| c < next implies #[trigger]
                            hash_spec(p, s, bits, y0, c) != t by {
                            if c >= x_offset {
                                assert(candidate_checksum_spec(prefix@, data, c) != t);
                            }
                        }
                    }
                    x_offset = next;
                },
                Ok(RoundStep::Done(r)) => {
                    proof {
                        if result is End {
                            assert(x_hi(x_offset, wg) == X_SPACE as int);
                            assert forall|c: u32| #[trigger]
                                hash_spec(p, s, bits, y0, c) != t by {
                                if c >= x_offset {
                                    assert(candidate_checksum_spec(prefix@, data, c) != t);
                                }
                            }
                        } else if result is Found {
                            let fx = result->Found_1;
                            assert forall|c: u32| c < fx implies #[trigger]
                                hash_spec(p, s, bits, y0, c) != t by {
                                if c >= x_offset {
                                    assert(candidate_checksum_spec(prefix@, data, c) != t);
                                }
                            }
                        }
                    }
                    return Ok(r);
                },
                Err(e) => {
                    return Err(e);
                },
            }
        }
    }

    /// Runs rounds from the current `Y` upwards until one finds a hit or the
    /// `Y` space is exhausted. A hit `(Y, X)` is the least `Y` from the start
    /// with any hit, and the least `X` for that `Y`.
    pub fn search(&mut self) -> (r: Result<HasherResult, HasherError>)
        requires
            old(self).wf(),
        ensures
            final(self).wf(),
            final(self).payload() == old(self).payload(),
            final(self).initial() == old(self).initial(),
            final(self).bits() == old(self).bits(),
            final(self).target() == old(self).target(),
            final(self).workgroups() == old(self).workgroups(),
            r is Err ==> r->Err_0 is GPUHasherError && dispatch_size(old(self).workgroups()) == 0,
            !(r is Ok && r->Ok_0 is Continue),
            dispatch_size(old(self).workgroups()) > 0 || old(self).current_y() > y_max(
                old(self).bits().len(),
            ) ==> r is Ok,
            r is Ok && r->Ok_0 is Found ==> {
                let y = r->Ok_0->Found_0;
                let x = r->Ok_0->Found_1;
                &&& old(self).current_y() <= y <= y_max(old(self).bits().len())
                &&& final(self).current_y() == y
                &&& no_hit_between(
                    old(self).payload(),
                    old(self).initial(),
                    old(self).bits(),
                    old(self).current_y() as int,
                    y as int,
                    old(self).target(),
                )
                &&& hash_spec(old(self).payload(), old(self).initial(), old(self).bits(), y, x)
                    == old(self).target()
                &&& forall|c: u32|
                    c < x ==> hash_spec(old(self).payload(), old(self).initial(), old(self).bits(), y, c)
                        != old(self).target()
            },
            r is Ok && r->Ok_0 is End ==> no_hit_between(
                old(self).payload(),
                old(self).initial(),
                old(self).bits(),
                old(self).current_y() as int,
                y_max(old(self).bits().len()) + 1,
                old(self).target(),
            ),
    {
        let ghost p = old(self).payload();
        let ghost s = old(self).initial();
        let ghost bits = old(self).bits();
        let ghost y0 = old(self).current_y();
        let ghost t = old(self).target();
        let ghost wg = old(self).workgroups();
        loop
            invariant
                self.wf(),
                self.payload() == p,
                self.initial() == s,
                self.bits() == bits,
                self.target() == t,
                self.workgroups() == wg,
                p == old(self).payload(),
                s == old(self).initial(),
                bits == old(self).bits(),
                y0 == old(self).current_y(),
                t == old(self).target(),
                wg == old(self).workgroups(),
                y0 <= self.current_y(),
                y0 < self.current_y() ==> self.current_y() <= y_max(bits.len()),
                no_hit_between(p, s, bits, y0 as int, self.current_y() as int, t),
            decreases u32::MAX - self.current_y(),
        {
            let r = self.run_round();
            match r {
                Ok(HasherResult::Continue) => {
                    assert(no_hit_between(p, s, bits, y0 as int, self.current_y() as int, t));
                },
                _ => {
                    return r;
                },
            }
        }
    }
}

/// A valid layout names bits inside the payload.
pub proof fn lemma_valid_fits(bits: Seq<u32>)
    requires
        layout_valid(bits),
    ensures
        layout_fits(bits),
{
    assert forall|k: int| 0 <= k < bits.len() implies #[trigger] bits[k] / 32 < 1008 by {
        assert(bits[k] < Y_BIT_LIMIT);
    }
}

} // verus!
