//! Small arithmetic helpers: base-2 logarithms and ceiling right-shift.

use vstd::prelude::*;

verus! {

use crate::error::Error;

use vstd::arithmetic::power2::{pow2, lemma_pow2_unfold, lemma_pow2_adds, lemma_pow2_pos};
use vstd::arithmetic::div_mod::lemma_fundamental_div_mod;

/// Largest exponent `r` with `pow2(r) <= x`, for `x >= 1`.
pub trait FloorLog2: Sized {
    /// The numeric value of `self`, for specification.
    spec fn as_nat(&self) -> nat;

    fn floor_log2(&self) -> (r: Self)
        requires
            self.as_nat() >= 1,
        ensures
            pow2(r.as_nat()) <= self.as_nat() < pow2(r.as_nat() + 1),
    ;
}

/// Smallest exponent `r` with `pow2(r) >= x`, for `x >= 1`.
pub trait CeilLog2: FloorLog2 {
    fn ceil_log2(&self) -> (r: Self)
        requires
            self.as_nat() >= 1,
        ensures
            self.as_nat() <= pow2(r.as_nat()),
            r.as_nat() > 0 ==> pow2((r.as_nat() - 1) as nat) < self.as_nat(),
    ;
}

impl FloorLog2 for u32 {
    open spec fn as_nat(&self) -> nat {
        *self as nat
    }

    /// Floor of the base-2 logarithm.
    fn floor_log2(&self) -> (r: u32) {
        let mut v: u32 = *self;
        let mut r: u32 = 0;
        proof {
            vstd::arithmetic::power2::lemma2_to64();
        }
        while v >= 2
            invariant
                1 <= v,
                r < 32,
                pow2(r as nat) * v <= *self < pow2(r as nat) * (v + 1),
            decreases v,
        {
            proof {
                lemma_pow2_adds(r as nat, 1);
                lemma_pow2_unfold(r as nat + 1);
                lemma_pow2_pos(r as nat);
                assert(pow2(r as nat + 1) * (v / 2) <= pow2(r as nat) * v) by (nonlinear_arith)
                    requires
                        v >= 2,
                        pow2(r as nat + 1) == pow2(r as nat) * 2,
                        pow2(r as nat) >= 1,
                ;
                assert(pow2(r as nat) * (v + 1) <= pow2(r as nat + 1) * (v / 2 + 1)) by (nonlinear_arith)
                    requires
                        v >= 2,
                        pow2(r as nat + 1) == pow2(r as nat) * 2,
                        pow2(r as nat) >= 1,
                ;
                assert(r + 1 < 32) by {
                    if r == 31 {
                        vstd::arithmetic::power2::lemma2_to64();
                        assert(pow2(31) * 2 > u32::MAX);
                        assert(pow2(31) * v >= pow2(31) * 2) by (nonlinear_arith)
                            requires v >= 2, pow2(31) >= 1,
                        ;
                    }
                }
            }
            v = v / 2;
            r = r + 1;
        }
        proof {
            lemma_pow2_adds(r as nat, 1);
            lemma_pow2_unfold(r as nat + 1);
            assert(pow2(r as nat) * 1 == pow2(r as nat));
            assert(pow2(r as nat) * (1 + 1) == pow2(r as nat + 1));
        }
        r
    }
}

impl FloorLog2 for usize {
    open spec fn as_nat(&self) -> nat {
        *self as nat
    }

    /// Floor of the base-2 logarithm.
    fn floor_log2(&self) -> (r: usize) {
        let mut v: usize = *self;
        let mut r: usize = 0;
        proof {
            vstd::arithmetic::power2::lemma2_to64();
        }
        while v >= 2
            invariant
                1 <= v,
                r < 64,
                pow2(r as nat) * v <= *self < pow2(r as nat) * (v + 1),
            decreases v,
        {
            proof {
                lemma_pow2_adds(r as nat, 1);
                lemma_pow2_unfold(r as nat + 1);
                lemma_pow2_pos(r as nat);
                assert(pow2(r as nat + 1) * (v / 2) <= pow2(r as nat) * v) by (nonlinear_arith)
                    requires
                        v >= 2,
                        pow2(r as nat + 1) == pow2(r as nat) * 2,
                        pow2(r as nat) >= 1,
                ;
                assert(pow2(r as nat) * (v + 1) <= pow2(r as nat + 1) * (v / 2 + 1)) by (nonlinear_arith)
                    requires
                        v >= 2,
                        pow2(r as nat + 1) == pow2(r as nat) * 2,
                        pow2(r as nat) >= 1,
                ;
                assert(r + 1 < 64) by {
                    if r == 63 {
                        vstd::arithmetic::power2::lemma2_to64();
                        vstd::arithmetic::power2::lemma2_to64_rest();
                        assert(pow2(63) * 2 > usize::MAX);
                        assert(pow2(63) * v >= pow2(63) * 2) by (nonlinear_arith)
                            requires v >= 2, pow2(63) >= 1,
                        ;
                    }
                }
            }
            v = v / 2;
            r = r + 1;
        }
        proof {
            lemma_pow2_adds(r as nat, 1);
            lemma_pow2_unfold(r as nat + 1);
            assert(pow2(r as nat) * 1 == pow2(r as nat));
            assert(pow2(r as nat) * (1 + 1) == pow2(r as nat + 1));
        }
        r
    }
}

impl CeilLog2 for u32 {
    /// Ceiling of the base-2 logarithm.
    fn ceil_log2(&self) -> (r: u32) {
        let f = self.floor_log2();
        proof {
            vstd::arithmetic::power2::lemma2_to64();
            assert(f < 32) by {
                if f >= 32 {
                    if f > 32 {
                        vstd::arithmetic::power2::lemma_pow2_strictly_increases(32, f as nat);
                    }
                    assert(pow2(32) <= pow2(f as nat));
                    assert(false);
                }
            }
            vstd::bits::lemma_u32_pow2_no_overflow(f as nat);
        }
        let p: u32 = 1u32 << f;
        proof {
            vstd::bits::lemma_u32_shl_is_mul(1u32, f);
            assert(p == pow2(f as nat));
        }
        if p == *self {
            proof {
                if f > 0 {
                    vstd::arithmetic::power2::lemma_pow2_strictly_increases((f - 1) as nat, f as nat);
                }
            }
            f
        } else {
            f + 1
        }
    }
}

impl CeilLog2 for usize {
    /// Ceiling of the base-2 logarithm.
    fn ceil_log2(&self) -> (r: usize) {
        let f = self.floor_log2();
        proof {
            vstd::arithmetic::power2::lemma2_to64();
            vstd::arithmetic::power2::lemma2_to64_rest();
            assert(f < 64) by {
                if f >= 64 {
                    if f > 64 {
                        vstd::arithmetic::power2::lemma_pow2_strictly_increases(64, f as nat);
                    }
                    assert(pow2(64) <= pow2(f as nat));
                    assert(false);
                }
            }
        }
        let p: usize = match checked_pow2(f) {
            Some(p) => p,
            None => {
                proof {
                    assert(false);
                }
                0
            }
        };
        if p == *self {
            proof {
                if f > 0 {
                    vstd::arithmetic::power2::lemma_pow2_strictly_increases((f - 1) as nat, f as nat);
                }
            }
            f
        } else {
            f + 1
        }
    }
}

/// `ceil(x / 2^s)`: the width or height of a buffer downsampled by shift `s`.
pub open spec fn shrc_spec(x: nat, s: nat) -> nat {
    (((x + pow2(s) - 1) as int) / (pow2(s) as int)) as nat
}

/// The ceiling quotient is characterised by `d*q >= x` and `d*(q-1) < x`.
pub proof fn lemma_ceil_div_char(x: int, d: int, q: int)
    requires
        d >= 1,
        x >= 0,
        q == (x + d - 1) / d,
    ensures
        d * q >= x,
        d * q < x + d,
        q >= 0,
{
    lemma_fundamental_div_mod(x + d - 1, d);
    vstd::arithmetic::div_mod::lemma_mod_bound(x + d - 1, d);
    let m = (x + d - 1) % d;
    assert(x + d - 1 == d * q + m);
    assert(d * q == x + d - 1 - m);
    vstd::arithmetic::div_mod::lemma_div_pos_is_pos(x + d - 1, d);
}

/// Any `q` meeting the characterisation is the ceiling quotient.
proof fn lemma_ceil_div_unique(x: int, d: int, q: int)
    requires
        d >= 1,
        x >= 0,
        q >= 0,
        d * q >= x,
        d * q < x + d,
    ensures
        q == (x + d - 1) / d,
{
    let q2 = (x + d - 1) / d;
    lemma_ceil_div_char(x, d, q2);
    assert(q == q2) by (nonlinear_arith)
        requires
            d >= 1,
            d * q >= x,
            d * q < x + d,
            d * q2 >= x,
            d * q2 < x + d,
    ;
}

/// Halving with ceiling steps the downsample shift by one.
proof fn lemma_shrc_step(x: nat, i: nat)
    ensures
        shrc_spec(x, i + 1) == shrc_spec(x, i) / 2 + shrc_spec(x, i) % 2,
{
    lemma_pow2_pos(i);
    lemma_pow2_adds(i, 1);
    lemma_pow2_unfold(i + 1);
    let p = pow2(i) as int;
    let q = shrc_spec(x, i) as int;
    lemma_ceil_div_char(x as int, p, q);
    let t = q / 2 + q % 2;
    assert(2 * t >= q && 2 * t < q + 2) by {
        lemma_fundamental_div_mod(q, 2);
        vstd::arithmetic::div_mod::lemma_mod_bound(q, 2);
    }
    assert((2 * p) * t >= x && (2 * p) * t < x + 2 * p) by (nonlinear_arith)
        requires
            p >= 1,
            2 * t >= q,
            2 * t < q + 2,
            p * q >= x,
            p * q < x + p,
    ;
    assert(t >= 0) by {
        lemma_fundamental_div_mod(q, 2);
        vstd::arithmetic::div_mod::lemma_mod_bound(q, 2);
        vstd::arithmetic::div_mod::lemma_div_pos_is_pos(q, 2);
    }
    lemma_ceil_div_unique(x as int, 2 * p, t);
    assert(pow2(i + 1) == 2 * p);
}

/// Once the ceiling quotient reaches 0 or 1 it stays there for larger shifts.
proof fn lemma_shrc_fixed(x: nat, i: nat, s: nat)
    requires
        i <= s,
        shrc_spec(x, i) <= 1,
    ensures
        shrc_spec(x, s) == shrc_spec(x, i),
    decreases s - i,
{
    if i < s {
        lemma_shrc_step(x, i);
        lemma_shrc_fixed(x, i + 1, s);
    }
}

/// Ceiling right-shift: `ceil(x / 2^s)`.
pub fn shrc(x: usize, s: usize) -> (r: usize)
    ensures
        r == shrc_spec(x as nat, s as nat),
{
    let mut r: usize = x;
    let mut i: usize = 0;
    proof {
        vstd::arithmetic::power2::lemma2_to64();
        assert(shrc_spec(x as nat, 0) == x as nat) by {
            assert(pow2(0) == 1);
        }
    }
    while i < s && r > 1
        invariant
            i <= s,
            r == shrc_spec(x as nat, i as nat),
            r <= x,
        decreases s - i,
    {
        proof {
            lemma_shrc_step(x as nat, i as nat);
        }
        r = r / 2 + r % 2;
        i = i + 1;
    }
    proof {
        if i < s {
            lemma_shrc_fixed(x as nat, i as nat, s as nat);
        }
    }
    r
}



/// An aligned horizontal or vertical group slice, downsampled, fits into
/// the downsampled canvas: `gof/2^s + ceil(gsz/2^s) <= ceil(w/2^s)` where
/// `gof` is a multiple of `2^s` and `gof + gsz <= w`.
pub proof fn lemma_tile_fits(w: nat, gof: nat, gsz: nat, s: nat)
    requires
        gof % pow2(s) == 0,
        gof + gsz <= w,
    ensures
        gof / pow2(s) + shrc_spec(gsz, s) <= shrc_spec(w, s),
{
    lemma_pow2_pos(s);
    let d = pow2(s) as int;
    let t = shrc_spec(gsz, s) as int;
    let m = shrc_spec(w, s) as int;
    lemma_ceil_div_char(gsz as int, d, t);
    lemma_ceil_div_char(w as int, d, m);
    lemma_fundamental_div_mod(gof as int, d);
    let q = gof as int / d;
    assert(gof == q * d);
    if q + t > m {
        assert(d * (q + t) >= d * (m + 1)) by (nonlinear_arith)
            requires d >= 1, q + t >= m + 1,
        ;
        assert(d * (q + t) == d * q + d * t) by (nonlinear_arith);
        assert(d * (m + 1) == d * m + d) by (nonlinear_arith);
        assert(d * q == gof) by (nonlinear_arith)
            requires gof == q * d,
        ;
        assert(false);
    }
}


/// Ceiling right-shift never exceeds its input.
pub proof fn lemma_shrc_le(x: nat, s: nat)
    ensures
        shrc_spec(x, s) <= x,
{
    lemma_pow2_pos(s);
    let d = pow2(s) as int;
    let m = shrc_spec(x, s) as int;
    lemma_ceil_div_char(x as int, d, m);
    if m > x {
        assert(d * m >= d * (x + 1)) by (nonlinear_arith)
            requires d >= 1, m >= x + 1,
        ;
        assert(d * (x + 1) >= x + d) by (nonlinear_arith)
            requires d >= 1, x >= 0,
        ;
        assert(false);
    }
}

/// A nonzero width stays nonzero under ceiling right-shift.
pub proof fn lemma_shrc_pos(x: nat, s: nat)
    requires
        x >= 1,
    ensures
        shrc_spec(x, s) >= 1,
{
    lemma_pow2_pos(s);
    let d = pow2(s) as int;
    lemma_ceil_div_char(x as int, d, ((x + d - 1) as int) / d);
    assert(d * shrc_spec(x, s) >= x);
    if shrc_spec(x, s) == 0 {
        assert(d * 0 == 0) by (nonlinear_arith);
    }
}

/// `2^s` as a `usize`, or `None` where it does not fit.
pub fn checked_pow2(s: usize) -> (r: Option<usize>)
    ensures
        r is Some <==> pow2(s as nat) <= usize::MAX,
        r is Some ==> r->Some_0 == pow2(s as nat),
{
    let mut p: usize = 1;
    let mut i: usize = 0;
    proof {
        vstd::arithmetic::power2::lemma2_to64();
    }
    while i < s
        invariant
            i <= s,
            p == pow2(i as nat),
        decreases s - i,
    {
        proof {
            lemma_pow2_adds(i as nat, 1);
            lemma_pow2_unfold(i as nat + 1);
        }
        if p > usize::MAX / 2 {
            proof {
                assert(2 * p > usize::MAX);
                if pow2(s as nat) <= usize::MAX {
                    if i as nat + 1 < s as nat {
                        vstd::arithmetic::power2::lemma_pow2_strictly_increases(
                            i as nat + 1, s as nat);
                    }
                    assert(pow2(i as nat + 1) <= pow2(s as nat));
                    assert(false);
                }
            }
            return None;
        }
        p = p * 2;
        i = i + 1;
    }
    Some(p)
}

/// `x * 2^s` as a `usize`, or `None` on overflow.
pub fn checked_shl(x: usize, s: usize) -> (r: Option<usize>)
    ensures
        r is Some <==> x * pow2(s as nat) <= usize::MAX,
        r is Some ==> r->Some_0 == x * pow2(s as nat),
{
    if x == 0 {
        proof {
            lemma_pow2_pos(s as nat);
        }
        return Some(0);
    }
    match checked_pow2(s) {
        None => {
            proof {
                lemma_pow2_pos(s as nat);
                assert(x * pow2(s as nat) >= 1 * pow2(s as nat)) by (nonlinear_arith)
                    requires x >= 1,
                ;
            }
            None
        }
        Some(p) => {
            proof {
                lemma_pow2_pos(s as nat);
            }
            if x > usize::MAX / p {
                proof {
                    lemma_fundamental_div_mod(usize::MAX as int, p as int);
                    vstd::arithmetic::div_mod::lemma_mod_bound(usize::MAX as int, p as int);
                    assert(x * p > usize::MAX) by (nonlinear_arith)
                        requires
                            p >= 1,
                            x >= ((usize::MAX as int) / (p as int)) + 1,
                            usize::MAX as int == (p as int) * ((usize::MAX as int) / (p as int))
                                + ((usize::MAX as int) % (p as int)),
                            ((usize::MAX as int) % (p as int)) < (p as int),
                    ;
                }
                None
            } else {
                proof {
                    lemma_fundamental_div_mod(usize::MAX as int, p as int);
                    vstd::arithmetic::div_mod::lemma_mod_bound(usize::MAX as int, p as int);
                    assert(x * p <= usize::MAX) by (nonlinear_arith)
                        requires
                            p >= 1,
                            x <= (usize::MAX as int) / (p as int),
                            usize::MAX as int == (p as int) * ((usize::MAX as int) / (p as int))
                                + ((usize::MAX as int) % (p as int)),
                            0 <= ((usize::MAX as int) % (p as int)),
                    ;
                }
                Some(x * p)
            }
        }
    }
}

/// `x / 2^s`, rounding down; 0 where `2^s` exceeds every `usize`.
pub fn shr_floor(x: usize, s: usize) -> (r: usize)
    ensures
        r == x as nat / pow2(s as nat),
{
    match checked_pow2(s) {
        None => {
            proof {
                vstd::arithmetic::div_mod::lemma_basic_div(x as int, pow2(s as nat) as int);
            }
            0
        }
        Some(p) => {
            proof {
                lemma_pow2_pos(s as nat);
            }
            x / p
        }
    }
}

/// `x % 2^s`; `x` itself where `2^s` exceeds every `usize`.
pub fn mod_pow2(x: usize, s: usize) -> (r: usize)
    ensures
        r == x as nat % pow2(s as nat),
{
    match checked_pow2(s) {
        None => {
            proof {
                vstd::arithmetic::div_mod::lemma_small_mod(x as nat, pow2(s as nat));
            }
            x
        }
        Some(p) => {
            proof {
                lemma_pow2_pos(s as nat);
            }
            x % p
        }
    }
}


/// Two byte slices viewed as one contiguous stream with a read position.
pub struct ConcatSlice<'first, 'second> {
    slices: (&'first [u8], &'second [u8]),
    ptr: usize,
}

impl<'first, 'second> ConcatSlice<'first, 'second> {
    /// The whole stream: both slices, concatenated.
    pub closed spec fn full_spec(&self) -> Seq<u8> {
        self.slices.0@ + self.slices.1@
    }

    /// The first underlying slice.
    pub closed spec fn first_spec(&self) -> Seq<u8> {
        self.slices.0@
    }

    /// The second underlying slice.
    pub closed spec fn second_spec(&self) -> Seq<u8> {
        self.slices.1@
    }

    /// How many bytes have been consumed.
    pub closed spec fn pos_spec(&self) -> nat {
        self.ptr as nat
    }

    /// The combined length stays addressable.
    pub closed spec fn wf(&self) -> bool {
        self.slices.0@.len() + self.slices.1@.len() <= usize::MAX
    }

    /// The bytes not yet consumed.
    pub open spec fn remaining_spec(&self) -> Seq<u8> {
        if self.pos_spec() >= self.full_spec().len() {
            Seq::empty()
        } else {
            self.full_spec().skip(self.pos_spec() as int)
        }
    }

    /// A fresh stream over the two slices, positioned at the start.
    pub fn new(slice0: &'first [u8], slice1: &'second [u8]) -> (r: Self)
        requires
            slice0@.len() + slice1@.len() <= usize::MAX,
        ensures
            r.wf(),
            r.full_spec() == slice0@ + slice1@,
            r.first_spec() == slice0@,
            r.second_spec() == slice1@,
            r.pos_spec() == 0,
    {
        Self { slices: (slice0, slice1), ptr: 0 }
    }

    /// Total length of the stream, consumed bytes included.
    pub fn len(&self) -> (n: usize)
        requires
            self.wf(),
        ensures
            n == self.full_spec().len(),
    {
        self.slices.0.len() + self.slices.1.len()
    }

    /// The unconsumed parts of the two slices: the cursor's suffix of the
    /// first slice and the whole second slice while the cursor is inside
    /// the first; the cursor's suffix of the second slice (and an empty
    /// first part) once the cursor has passed the first; two empty slices
    /// once it has passed everything.
    pub fn remaining_slices(&self) -> (r: (&'first [u8], &'second [u8]))
        requires
            self.wf(),
        ensures
            r.0@ + r.1@ == self.remaining_spec(),
            r.0@ == if self.pos_spec() >= self.first_spec().len() {
                Seq::<u8>::empty()
            } else {
                self.first_spec().skip(self.pos_spec() as int)
            },
            r.1@ == if self.pos_spec() >= self.full_spec().len() {
                Seq::<u8>::empty()
            } else if self.pos_spec() >= self.first_spec().len() {
                self.second_spec().skip(
                    self.pos_spec() as int - self.first_spec().len() as int)
            } else {
                self.second_spec()
            },
    {
        let (slice0, slice1) = self.slices;
        let total_len = self.len();
        let ptr = self.ptr;
        if ptr >= total_len {
            let e0 = vstd::slice::slice_subrange(slice0, slice0.len(), slice0.len());
            let e1 = vstd::slice::slice_subrange(slice1, slice1.len(), slice1.len());
            proof {
                assert(e0@ + e1@ =~= self.remaining_spec());
            }
            (e0, e1)
        } else if ptr >= slice0.len() {
            let e0 = vstd::slice::slice_subrange(slice0, slice0.len(), slice0.len());
            let r1 = vstd::slice::slice_subrange(slice1, ptr - slice0.len(), slice1.len());
            proof {
                assert(e0@ + r1@ =~= self.remaining_spec());
            }
            (e0, r1)
        } else {
            let r0 = vstd::slice::slice_subrange(slice0, ptr, slice0.len());
            proof {
                assert(r0@ + slice1@ =~= self.remaining_spec());
            }
            (r0, slice1)
        }
    }

    /// Move the read position forward by `bytes`.
    pub fn advance(&mut self, bytes: usize)
        requires
            old(self).wf(),
            old(self).pos_spec() + bytes <= usize::MAX,
        ensures
            final(self).wf(),
            final(self).full_spec() == old(self).full_spec(),
            final(self).pos_spec() == old(self).pos_spec() + bytes,
    {
        self.ptr = self.ptr + bytes;
    }

    /// Copy up to `out_len` unconsumed bytes into a fresh vector, without
    /// moving the read position.
    pub fn peek(&self, out_len: usize) -> (out: Vec<u8>)
        requires
            self.wf(),
        ensures
            out@ == self.remaining_spec().take(
                if out_len <= self.remaining_spec().len() {
                    out_len as int
                } else {
                    self.remaining_spec().len() as int
                },
            ),
    {
        let (slice0, slice1) = self.remaining_slices();
        proof {
            assert(self.remaining_spec().len() <= self.full_spec().len());
            assert(slice0@.len() + slice1@.len() == self.remaining_spec().len());
        }
        let total_len = slice0.len() + slice1.len();
        let out_bytes = if out_len <= total_len { out_len } else { total_len };
        let mut out: Vec<u8> = Vec::new();
        let mut i: usize = 0;
        while i < out_bytes
            invariant
                i <= out_bytes,
                out_bytes <= slice0@.len() + slice1@.len(),
                out@.len() == i,
                forall|j: int| 0 <= j < i ==> out@[j] == (slice0@ + slice1@)[j],
            decreases out_bytes - i,
        {
            if i < slice0.len() {
                out.push(*vstd::slice::slice_index_get(slice0, i));
            } else {
                out.push(*vstd::slice::slice_index_get(slice1, i - slice0.len()));
            }
            i = i + 1;
        }
        proof {
            assert(out@ =~= self.remaining_spec().take(
                if out_len <= self.remaining_spec().len() {
                    out_len as int
                } else {
                    self.remaining_spec().len() as int
                },
            ));
        }
        out
    }

    /// Append up to `max_bytes` (all, where `None`) unconsumed bytes to `v`
    /// and consume them.
    pub fn fill_vec(&mut self, max_bytes: Option<usize>, v: &mut Vec<u8>) -> (r: Result<
        usize,
        Error,
    >)
        requires
            old(self).wf(),
        ensures
            final(self).wf(),
            final(self).full_spec() == old(self).full_spec(),
            r matches Ok(n) ==> {
                let limit = match max_bytes {
                    Some(m) => m as nat,
                    None => usize::MAX as nat,
                };
                let taken = if limit <= old(self).remaining_spec().len() {
                    limit
                } else {
                    old(self).remaining_spec().len()
                };
                &&& n == taken
                &&& final(v)@ == old(v)@ + old(self).remaining_spec().take(taken as int)
                &&& final(self).pos_spec() == old(self).pos_spec() + taken
            },
            r matches Err(e) ==> {
                &&& e is OutOfMemory
                &&& final(v)@ == old(v)@
                &&& final(self).pos_spec() == old(self).pos_spec()
            },
    {
        let (slice0, slice1) = self.remaining_slices();
        proof {
            assert(self.remaining_spec().len() <= self.full_spec().len());
            assert(slice0@.len() + slice1@.len() == self.remaining_spec().len());
        }
        let total_len = slice0.len() + slice1.len();
        let limit = match max_bytes {
            Some(m) => m,
            None => usize::MAX,
        };
        let out_bytes = if limit <= total_len { limit } else { total_len };
        if v.try_reserve(out_bytes).is_err() {
            return Err(Error::OutOfMemory);
        }
        let mut i: usize = 0;
        while i < out_bytes
            invariant
                i <= out_bytes,
                out_bytes <= slice0@.len() + slice1@.len(),
                v@.len() == old(v)@.len() + i,
                old(v)@ == v@.take(old(v)@.len() as int),
                forall|j: int|
                    0 <= j < i ==> v@[old(v)@.len() + j] == (slice0@ + slice1@)[j],
            decreases out_bytes - i,
        {
            if i < slice0.len() {
                v.push(*vstd::slice::slice_index_get(slice0, i));
            } else {
                v.push(*vstd::slice::slice_index_get(slice1, i - slice0.len()));
            }
            i = i + 1;
        }
        proof {
            if self.pos_spec() < self.full_spec().len() {
                assert(self.remaining_spec().len() == self.full_spec().len() - self.pos_spec());
            }
        }
        self.advance(out_bytes);
        proof {
            assert(v@ =~= old(v)@ + old(self).remaining_spec().take(out_bytes as int));
        }
        Ok(out_bytes)
    }
}

} // verus!
