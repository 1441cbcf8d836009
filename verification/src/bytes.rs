//! Little-endian numbers in byte strings.

use vstd::prelude::*;

verus! {

/// The number that a byte string spells, lowest byte first.
pub open spec fn le_value(s: Seq<u8>) -> nat
    decreases s.len(),
{
    if s.len() == 0 {
        0
    } else {
        s[0] as nat + 256 * le_value(s.drop_first())
    }
}

/// The lowest `n` bytes of `v`, lowest byte first.
pub open spec fn le_bytes(v: nat, n: nat) -> Seq<u8>
    decreases n,
{
    if n == 0 {
        Seq::empty()
    } else {
        seq![(v % 256) as u8] + le_bytes(v / 256, (n - 1) as nat)
    }
}

/// `256` to the power of `n`: the number of values that `n` bytes can spell.
pub open spec fn pow256(n: nat) -> nat
    decreases n,
{
    if n == 0 {
        1
    } else {
        256 * pow256((n - 1) as nat)
    }
}

/// The number spelled by the `n` bytes of `s` that start at `at`.
pub open spec fn le_at(s: Seq<u8>, at: int, n: int) -> nat {
    le_value(s.subrange(at, at + n))
}

/// At least `n` bytes of `s` start at `at`.
pub open spec fn avail(s: Seq<u8>, at: int, n: int) -> bool {
    0 <= at && 0 <= n && at + n <= s.len()
}

/// The first powers of 256, as far as the widest element needs them.
pub proof fn lemma_pow256_values()
    ensures
        pow256(0) == 1,
        pow256(1) == 0x100,
        pow256(2) == 0x1_0000,
        pow256(4) == 0x1_0000_0000,
        pow256(8) == 0x1_0000_0000_0000_0000,
        pow256(16) == 0x1_0000_0000_0000_0000_0000_0000_0000_0000,
{
    reveal_with_fuel(pow256, 17);
}

/// A power of 256 grows with its exponent.
pub proof fn lemma_pow256_monotonic(m: nat, n: nat)
    requires
        m <= n,
    ensures
        0 < pow256(m) <= pow256(n),
    decreases n,
{
    if n == 0 {
    } else if m == n {
        lemma_pow256_monotonic((m - 1) as nat, (n - 1) as nat);
    } else {
        lemma_pow256_monotonic(m, (n - 1) as nat);
    }
}

/// A byte string of length `n` spells a number below `256^n`.
pub proof fn lemma_le_value_bound(s: Seq<u8>)
    ensures
        le_value(s) < pow256(s.len()),
    decreases s.len(),
{
    if s.len() > 0 {
        lemma_le_value_bound(s.drop_first());
    }
}

/// A number is laid out in as many bytes as asked for.
pub proof fn lemma_le_bytes_len(v: nat, n: nat)
    ensures
        le_bytes(v, n).len() == n,
    decreases n,
{
    if n > 0 {
        lemma_le_bytes_len(v / 256, (n - 1) as nat);
    }
}

/// Spelling a number that fits in `n` bytes and reading it back gives the number.
pub proof fn lemma_le_value_of_bytes(v: nat, n: nat)
    requires
        v < pow256(n),
    ensures
        le_value(le_bytes(v, n)) == v,
    decreases n,
{
    if n > 0 {
        lemma_le_value_of_bytes(v / 256, (n - 1) as nat);
        let s = le_bytes(v, n);
        assert(s.drop_first() =~= le_bytes(v / 256, (n - 1) as nat));
    }
}

/// Reading a byte string and spelling the number again gives the byte string.
pub proof fn lemma_le_bytes_of_value(s: Seq<u8>)
    ensures
        le_bytes(le_value(s), s.len()) == s,
    decreases s.len(),
{
    if s.len() > 0 {
        lemma_le_bytes_of_value(s.drop_first());
        let v = le_value(s);
        assert(v % 256 == s[0] as nat);
        assert(v / 256 == le_value(s.drop_first()));
        assert(le_bytes(v, s.len()) =~= s);
    } else {
        assert(le_bytes(le_value(s), s.len()) =~= s);
    }
}

/// Reads the `n`-byte number at `at`.
pub fn read_le(data: &[u8], at: usize, n: usize) -> (v: u128)
    requires
        n <= 16,
        at + n <= data@.len(),
    ensures
        v == le_at(data@, at as int, n as int),
        v < pow256(n as nat),
{
    let mut acc: u128 = 0;
    let mut i: usize = n;
    let len: usize = data.len();
    proof {
        assert(data@.subrange(at + n, at + n).len() == 0);
    }
    while i > 0
        invariant
            i <= n,
            n <= 16,
            at + n <= len,
            len == data@.len(),
            acc == le_value(data@.subrange(at + i, at + n)),
            acc < pow256((n - i) as nat),
        decreases i,
    {
        proof {
            let tail = data@.subrange(at + i - 1, at + n);
            assert(tail.drop_first() =~= data@.subrange(at + i, at + n));
            lemma_pow256_monotonic((n - i + 1) as nat, 16);
            lemma_pow256_values();
        }
        i -= 1;
        acc = acc * 256 + data[at + i] as u128;
    }
    acc
}

/// Appends the lowest `n` bytes of `v`, lowest byte first.
pub fn push_le(out: &mut Vec<u8>, v: u128, n: usize)
    ensures
        final(out)@ == old(out)@ + le_bytes(v as nat, n as nat),
{
    let mut rest: u128 = v;
    let mut i: usize = 0;
    while i < n
        invariant
            i <= n,
            old(out)@ + le_bytes(v as nat, n as nat) == out@ + le_bytes(rest as nat, (n - i) as nat),
        decreases n - i,
    {
        proof {
            let ghost_out = out@;
            assert(ghost_out.push((rest % 256) as u8) + le_bytes((rest / 256) as nat, (n - i - 1) as nat) =~= ghost_out
                + le_bytes(rest as nat, (n - i) as nat));
        }
        out.push((rest % 256) as u8);
        rest = rest / 256;
        i += 1;
    }
    assert(out@ + le_bytes(rest as nat, 0) =~= out@);
}

/// A pixel type of the format: an unsigned number stored in a fixed count of bytes.
pub trait Pixel: Copy + Sized {
    /// How many bytes one pixel takes on disk.
    spec fn size() -> nat;

    /// The number that the pixel holds.
    spec fn value(self) -> nat;

    /// A pixel takes between one byte and sixteen, and its number fits them.
    proof fn lemma_pixel(self)
        ensures
            1 <= Self::size() <= 16,
            self.value() < pow256(Self::size()),
    ;

    /// Pixels that hold the same number are the same.
    proof fn lemma_value_injective(self, other: Self)
        requires
            self.value() == other.value(),
        ensures
            self == other,
    ;

    /// How many bytes one pixel takes on disk.
    fn byte_len() -> (n: usize)
        ensures
            n == Self::size(),
            1 <= n <= 16,
    ;

    /// The pixel that holds `v`.
    fn from_value(v: u128) -> (p: Self)
        requires
            v < pow256(Self::size()),
        ensures
            p.value() == v,
    ;

    /// The number that the pixel holds.
    fn to_value(self) -> (v: u128)
        ensures
            v == self.value(),
    ;
}

impl Pixel for u8 {
    open spec fn size() -> nat {
        1
    }

    open spec fn value(self) -> nat {
        self as nat
    }

    proof fn lemma_pixel(self) {
        lemma_pow256_values();
    }

    proof fn lemma_value_injective(self, other: Self) {
    }

    fn byte_len() -> (n: usize) {
        1
    }

    fn from_value(v: u128) -> (p: Self) {
        proof {
            lemma_pow256_values();
        }
        v as u8
    }

    fn to_value(self) -> (v: u128) {
        self as u128
    }
}

impl Pixel for u16 {
    open spec fn size() -> nat {
        2
    }

    open spec fn value(self) -> nat {
        self as nat
    }

    proof fn lemma_pixel(self) {
        lemma_pow256_values();
    }

    proof fn lemma_value_injective(self, other: Self) {
    }

    fn byte_len() -> (n: usize) {
        2
    }

    fn from_value(v: u128) -> (p: Self) {
        proof {
            lemma_pow256_values();
        }
        v as u16
    }

    fn to_value(self) -> (v: u128) {
        self as u128
    }
}

impl Pixel for u32 {
    open spec fn size() -> nat {
        4
    }

    open spec fn value(self) -> nat {
        self as nat
    }

    proof fn lemma_pixel(self) {
        lemma_pow256_values();
    }

    proof fn lemma_value_injective(self, other: Self) {
    }

    fn byte_len() -> (n: usize) {
        4
    }

    fn from_value(v: u128) -> (p: Self) {
        proof {
            lemma_pow256_values();
        }
        v as u32
    }

    fn to_value(self) -> (v: u128) {
        self as u128
    }
}

impl Pixel for u64 {
    open spec fn size() -> nat {
        8
    }

    open spec fn value(self) -> nat {
        self as nat
    }

    proof fn lemma_pixel(self) {
        lemma_pow256_values();
    }

    proof fn lemma_value_injective(self, other: Self) {
    }

    fn byte_len() -> (n: usize) {
        8
    }

    fn from_value(v: u128) -> (p: Self) {
        proof {
            lemma_pow256_values();
        }
        v as u64
    }

    fn to_value(self) -> (v: u128) {
        self as u128
    }
}

impl Pixel for u128 {
    open spec fn size() -> nat {
        16
    }

    open spec fn value(self) -> nat {
        self as nat
    }

    proof fn lemma_pixel(self) {
        lemma_pow256_values();
    }

    proof fn lemma_value_injective(self, other: Self) {
    }

    fn byte_len() -> (n: usize) {
        16
    }

    fn from_value(v: u128) -> (p: Self) {
        v
    }

    fn to_value(self) -> (v: u128) {
        self
    }
}

} // verus!
