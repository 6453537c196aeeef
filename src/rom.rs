//! Writing a found `(Y, X)` into a ROM image. Each `Y` bit index is taken as a
//! bit offset from the start of the file, and `X` goes big-endian at byte 4092.
use vstd::prelude::*;
use vstd::arithmetic::power2::{pow2, lemma_pow2_unfold, lemma_pow2_pos};
use vstd::arithmetic::div_mod::{lemma_mod_breakdown, lemma_small_mod};
use vstd::bits::lemma_u32_shr_is_div;
use crate::cpu::y_bit;
use crate::hasher::{Hasher, HasherError, layout_valid, y_max};

verus! {

/// File offset of the big-endian `X` word.
pub const X_OFFSET: usize = 4092;

/// Length a signed ROM has at least.
pub const SIGNED_LEN: usize = 4096;

/// `b` with bit `off` set (`on`) or cleared.
pub open spec fn set_bit(b: u8, off: u8, on: bool) -> u8 {
    if on {
        b | (1u8 << off)
    } else {
        b & !(1u8 << off)
    }
}

/// Bit `b` of a ROM image, counted from the start of the file.
pub open spec fn rom_bit(rom: Seq<u8>, b: u32) -> u8 {
    (rom[(b / 8) as int] >> ((b % 8) as u8)) & 1
}

/// `rom` with bit `bits[i]` made equal to bit `i` of `y`, for each `i < n`.
pub open spec fn sign_bits(rom: Seq<u8>, bits: Seq<u32>, y: u32, n: nat) -> Seq<u8>
    decreases n,
{
    if n == 0 {
        rom
    } else {
        let r = sign_bits(rom, bits, y, (n - 1) as nat);
        let k = (bits[n - 1] / 8) as int;
        r.update(k, set_bit(r[k], (bits[n - 1] % 8) as u8, y_bit(y, n - 1) == 1))
    }
}

/// The four big-endian bytes of `x`.
pub open spec fn be_bytes(x: u32) -> Seq<u8> {
    seq![
        ((x >> 24u32) & 0xFF) as u8,
        ((x >> 16u32) & 0xFF) as u8,
        ((x >> 8u32) & 0xFF) as u8,
        (x & 0xFF) as u8,
    ]
}

/// Every layout bit lies in an image of `len` bytes.
pub open spec fn bits_in_rom(len: nat, bits: Seq<u32>) -> bool {
    forall|i: int| 0 <= i < bits.len() ==> (#[trigger] bits[i] / 8) < len
}

/// Index of the first layout bit at or after `i` that lies past an image of
/// `len` bytes, or `bits.len()` if none does.
pub open spec fn first_outside(len: nat, bits: Seq<u32>, i: int) -> int
    decreases bits.len() - i,
{
    if i >= bits.len() {
        bits.len() as int
    } else if bits[i] / 8 >= len {
        i
    } else {
        first_outside(len, bits, i + 1)
    }
}

/// The image after signing: the `Y` bits written, the image padded with zeros to
/// 4096 bytes if shorter, and `X` at bytes 4092..4096.
pub open spec fn signed_rom(rom: Seq<u8>, bits: Seq<u32>, y: u32, x: u32) -> Seq<u8> {
    let r = sign_bits(rom, bits, y, bits.len());
    let p = if r.len() < SIGNED_LEN {
        r + Seq::new((SIGNED_LEN - r.len()) as nat, |i: int| 0u8)
    } else {
        r
    };
    p.subrange(0, X_OFFSET as int) + be_bytes(x) + p.subrange(SIGNED_LEN as int, p.len() as int)
}

/// The value whose bit `i` is the image's bit `bits[i]`, for each `i < n`.
pub open spec fn read_bits(rom: Seq<u8>, bits: Seq<u32>, n: nat) -> int
    decreases n,
{
    if n == 0 {
        0
    } else {
        read_bits(rom, bits, (n - 1) as nat) + rom_bit(rom, bits[n - 1]) * pow2((n - 1) as nat)
    }
}

/// `Y` as read back from an image through a layout.
pub open spec fn read_y(rom: Seq<u8>, bits: Seq<u32>) -> int {
    read_bits(rom, bits, bits.len())
}

impl Hasher {
    /// Writes `y` through `y_bits`, bit by bit in layout order, then `x` at
    /// byte 4092. A `Y` bit past the end of the image stops it with an
    /// `IoError`: the bits before that one are written, `x` is not.
    pub fn sign_rom(rom: &mut Vec<u8>, y_bits: Vec<u32>, y: u32, x: u32) -> (r: Result<
        (),
        HasherError,
    >)
        requires
            y_bits.len() <= 32,
        ensures
            r is Ok <==> bits_in_rom(old(rom)@.len(), y_bits@),
            r is Ok ==> final(rom)@ == signed_rom(old(rom)@, y_bits@, y, x),
            r is Err ==> r->Err_0 is IoError && final(rom)@ == sign_bits(
                old(rom)@,
                y_bits@,
                y,
                first_outside(old(rom)@.len(), y_bits@, 0) as nat,
            ),
    {
        let ghost r0 = rom@;
        let mut i: usize = 0;
        while i < y_bits.len()
            invariant
                i <= y_bits.len() <= 32,
                r0 == old(rom)@,
                forall|j: int| 0 <= j < i ==> (#[trigger] y_bits@[j] / 8) < r0.len(),
                first_outside(r0.len(), y_bits@, 0) == first_outside(r0.len(), y_bits@, i as int),
                rom@ == sign_bits(r0, y_bits@, y, i as nat),
                rom@.len() == r0.len(),
            decreases y_bits.len() - i,
        {
            if (y_bits[i] / 8) as usize >= rom.len() {
                assert(y_bits@[i as int] / 8 >= r0.len());
                return Err(HasherError::IoError("failed to fill whole buffer".to_string()));
            }
            let byte_index = (y_bits[i] / 8) as usize;
            let bit_offset = (y_bits[i] % 8) as u8;
            let mask: u8 = 1u8 << bit_offset;
            let byte = rom[byte_index];
            let written = if (y >> (i as u32)) & 1 == 1 {
                byte | mask
            } else {
                byte & !mask
            };
            rom.set(byte_index, written);
            i = i + 1;
        }
        let ghost signed = rom@;
        while rom.len() < SIGNED_LEN
            invariant
                signed.len() <= rom.len() <= SIGNED_LEN || rom.len() == signed.len(),
                rom@ == (if signed.len() < SIGNED_LEN {
                    signed + Seq::new((rom.len() - signed.len()) as nat, |i: int| 0u8)
                } else {
                    signed
                }),
            decreases SIGNED_LEN - rom.len(),
        {
            rom.push(0);
            assert(rom@ =~= signed + Seq::new((rom.len() - signed.len()) as nat, |i: int| 0u8));
        }
        proof {
            assert((x >> 24u32) & 0xFF <= 0xFF) by (bit_vector);
            assert((x >> 16u32) & 0xFF <= 0xFF) by (bit_vector);
            assert((x >> 8u32) & 0xFF <= 0xFF) by (bit_vector);
            assert(x & 0xFF <= 0xFF) by (bit_vector);
        }
        rom.set(X_OFFSET, ((x >> 24) & 0xFF) as u8);
        rom.set(X_OFFSET + 1, ((x >> 16) & 0xFF) as u8);
        rom.set(X_OFFSET + 2, ((x >> 8) & 0xFF) as u8);
        rom.set(X_OFFSET + 3, (x & 0xFF) as u8);
        assert(rom@ =~= signed_rom(r0, y_bits@, y, x));
        Ok(())
    }
}

proof fn lemma_set_bit_read(b: u8, o: u8, o2: u8, on: bool)
    requires
        o < 8,
        o2 < 8,
    ensures
        o == o2 ==> ((set_bit(b, o, on) >> o2) & 1) == (if on { 1u8 } else { 0u8 }),
        o != o2 ==> ((set_bit(b, o, on) >> o2) & 1) == ((b >> o2) & 1),
{
    if on {
        assert(o == o2 ==> ((b | (1u8 << o)) >> o2) & 1 == 1u8) by (bit_vector)
            requires o < 8u8, o2 < 8u8;
        assert(o != o2 ==> ((b | (1u8 << o)) >> o2) & 1 == (b >> o2) & 1) by (bit_vector)
            requires o < 8u8, o2 < 8u8;
    } else {
        assert(o == o2 ==> ((b & !(1u8 << o)) >> o2) & 1 == 0u8) by (bit_vector)
            requires o < 8u8, o2 < 8u8;
        assert(o != o2 ==> ((b & !(1u8 << o)) >> o2) & 1 == (b >> o2) & 1) by (bit_vector)
            requires o < 8u8, o2 < 8u8;
    }
}

proof fn lemma_y_bit_is_bit(y: u32, i: int)
    requires
        0 <= i < 32,
    ensures
        y_bit(y, i) == 0 || y_bit(y, i) == 1,
        y_bit(y, i) == (y as nat / pow2(i as nat)) % 2,
{
    let s = i as u32;
    assert((y >> s) & 1 == 0 || (y >> s) & 1 == 1) by (bit_vector);
    let z = y >> s;
    assert(z & 1 == z % 2) by (bit_vector);
    lemma_u32_shr_is_div(y, s);
}

proof fn lemma_sign_bits_read(rom: Seq<u8>, bits: Seq<u32>, y: u32, n: nat)
    requires
        n <= bits.len() <= 32,
        bits_in_rom(rom.len(), bits),
        forall|j: int, k: int| 0 <= j < k < bits.len() ==> bits[j] != bits[k],
    ensures
        sign_bits(rom, bits, y, n).len() == rom.len(),
        forall|i: int|
            0 <= i < n ==> rom_bit(sign_bits(rom, bits, y, n), #[trigger] bits[i]) as u32 == y_bit(
                y,
                i,
            ),
    decreases n,
{
    if n > 0 {
        lemma_sign_bits_read(rom, bits, y, (n - 1) as nat);
        let r = sign_bits(rom, bits, y, (n - 1) as nat);
        let last = bits[n - 1];
        let k = (last / 8) as int;
        let on = y_bit(y, n - 1) == 1;
        lemma_y_bit_is_bit(y, n - 1);
        assert forall|i: int| 0 <= i < n implies rom_bit(
            sign_bits(rom, bits, y, n),
            #[trigger] bits[i],
        ) as u32 == y_bit(y, i) by {
            let b = bits[i];
            lemma_set_bit_read(r[k], (last % 8) as u8, (b % 8) as u8, on);
            if i < n - 1 {
                assert(b != last);
                if b / 8 == last / 8 {
                    assert(b % 8 != last % 8);
                }
            }
        }
    }
}

proof fn lemma_read_bits_value(rom: Seq<u8>, bits: Seq<u32>, y: u32, n: nat)
    requires
        n <= bits.len() <= 32,
        forall|i: int| 0 <= i < n ==> rom_bit(rom, #[trigger] bits[i]) as u32 == y_bit(y, i),
    ensures
        read_bits(rom, bits, n) == y as nat % pow2(n),
    decreases n,
{
    lemma_pow2_pos(n);
    if n == 0 {
        vstd::arithmetic::power2::lemma2_to64();
        assert(y as nat % 1 == 0);
    } else {
        let m = (n - 1) as nat;
        lemma_read_bits_value(rom, bits, y, m);
        lemma_y_bit_is_bit(y, m as int);
        lemma_pow2_pos(m);
        lemma_pow2_unfold(n);
        lemma_mod_breakdown(y as int, pow2(m) as int, 2);
        assert(rom_bit(rom, bits[m as int]) as u32 == y_bit(y, m as int));
        assert(pow2(m) * 2 == pow2(n));
        let bit = rom_bit(rom, bits[m as int]) as int;
        let q = ((y as nat / pow2(m)) % 2) as int;
        assert(bit == q);
        assert(bit * pow2(m) == pow2(m) * q) by (nonlinear_arith)
            requires bit == q;
        assert(read_bits(rom, bits, n) == read_bits(rom, bits, m) + bit * pow2(m));
    }
}

/// Round trip of the `Y` bits: signing an image with `y` through a layout of
/// distinct bits that all lie in the image, before the `X` word, and reading
/// those bits back from the signed image gives `y` modulo `2^|L|`, so `y`
/// itself when it fits the layout, whatever the bits held before and
/// whatever `x` is.
pub proof fn lemma_sign_read_round_trip(rom: Seq<u8>, bits: Seq<u32>, y: u32, x: u32)
    requires
        bits.len() <= 32,
        forall|j: int, k: int| 0 <= j < k < bits.len() ==> bits[j] != bits[k],
        bits_in_rom(rom.len(), bits),
        forall|i: int| 0 <= i < bits.len() ==> (#[trigger] bits[i] / 8) < X_OFFSET,
    ensures
        read_y(signed_rom(rom, bits, y, x), bits) == y as nat % pow2(bits.len()),
        y <= y_max(bits.len()) ==> read_y(signed_rom(rom, bits, y, x), bits) == y,
{
    let n = bits.len();
    lemma_sign_bits_read(rom, bits, y, n);
    let r = sign_bits(rom, bits, y, n);
    let f = signed_rom(rom, bits, y, x);
    assert forall|i: int| 0 <= i < n implies rom_bit(f, #[trigger] bits[i]) as u32 == y_bit(
        y,
        i,
    ) by {
        assert(bits[i] / 8 < X_OFFSET);
        assert(rom_bit(r, bits[i]) as u32 == y_bit(y, i));
    }
    lemma_read_bits_value(f, bits, y, n);
    lemma_pow2_pos(n);
    if y <= y_max(n) {
        lemma_small_mod(y as nat, pow2(n));
    }
}

/// A valid layout meets the round trip's conditions on any image that holds
/// its bits: its bits are distinct and lie before the `X` word.
pub proof fn lemma_valid_layout_round_trip(rom: Seq<u8>, bits: Seq<u32>, y: u32, x: u32)
    requires
        layout_valid(bits),
        bits_in_rom(rom.len(), bits),
        y <= y_max(bits.len()),
    ensures
        read_y(signed_rom(rom, bits, y, x), bits) == y,
{
    assert forall|i: int| 0 <= i < bits.len() implies (#[trigger] bits[i] / 8) < X_OFFSET by {
        assert(bits[i] < 32224);
    }
    lemma_sign_read_round_trip(rom, bits, y, x);
}

} // verus!
