//! The Hilbert curve used to order items spatially: conversions between a position along the
//! curve and the integer grid coordinates of the cell it passes through.
//!
//! A curve of `n` iterations covers a `2^n` by `2^n` grid, and its positions run from `0` to
//! `4^n - 1`. The conversions are Skilling's transposition method for two dimensions: the
//! position is the interleaving of the bits of two numbers (the "transpose"), which are Gray
//! coded and then rotated and reflected level by level.

use vstd::prelude::*;

verus! {

/// A cell of the integer grid covered by a Hilbert curve.
#[derive(Debug, Clone, Copy, PartialEq, Eq, Structural)]
pub struct HilbertCoord {
    /// The column.
    pub x: u32,
    /// The row.
    pub y: u32,
}

/// The low `k` bits set.
pub open spec fn low_mask(k: u32) -> u32 {
    ((1u32 << k) - 1) as u32
}

/// `v` fits in `n` bits.
pub open spec fn fits(v: u32, n: u32) -> bool {
    v >> n == 0
}

/// The column after one level of undoing the rotations, at level `k`.
pub open spec fn undo_x(x: u32, y: u32, k: u32) -> u32 {
    let q = 1u32 << k;
    let p = low_mask(k);
    let x1 = if y & q != 0 { x ^ p } else { x ^ ((x ^ y) & p) };
    if x1 & q != 0 { x1 ^ p } else { x1 }
}

/// The row after one level of undoing the rotations, at level `k`.
pub open spec fn undo_y(x: u32, y: u32, k: u32) -> u32 {
    let q = 1u32 << k;
    let p = low_mask(k);
    if y & q != 0 { y } else { y ^ ((x ^ y) & p) }
}

/// The column after one level of the rotations, at level `k`.
pub open spec fn redo_x(x: u32, y: u32, k: u32) -> u32 {
    let q = 1u32 << k;
    let p = low_mask(k);
    let x1 = if x & q != 0 { x ^ p } else { x };
    if y & q != 0 { x1 ^ p } else { x1 ^ ((x1 ^ y) & p) }
}

/// The row after one level of the rotations, at level `k`.
pub open spec fn redo_y(x: u32, y: u32, k: u32) -> u32 {
    let q = 1u32 << k;
    let p = low_mask(k);
    let x1 = if x & q != 0 { x ^ p } else { x };
    if y & q != 0 { y } else { y ^ ((x1 ^ y) & p) }
}

/// One level of undoing the rotations.
pub open spec fn undo_step(c: HilbertCoord, k: u32) -> HilbertCoord {
    HilbertCoord { x: undo_x(c.x, c.y, k), y: undo_y(c.x, c.y, k) }
}

/// One level of the rotations.
pub open spec fn redo_step(c: HilbertCoord, k: u32) -> HilbertCoord {
    HilbertCoord { x: redo_x(c.x, c.y, k), y: redo_y(c.x, c.y, k) }
}

proof fn lemma_redo_undo_x(x: u32, y: u32, k: u32)
    by (bit_vector)
    requires
        1 <= k < 31,
    ensures
        redo_x(undo_x(x, y, k), undo_y(x, y, k), k) == x,
        redo_y(undo_x(x, y, k), undo_y(x, y, k), k) == y,
        undo_x(redo_x(x, y, k), redo_y(x, y, k), k) == x,
        undo_y(redo_x(x, y, k), redo_y(x, y, k), k) == y,
{
}

proof fn lemma_steps_keep_fit(x: u32, y: u32, k: u32, n: u32)
    by (bit_vector)
    requires
        1 <= k < n,
        n <= 31,
        x >> n == 0,
        y >> n == 0,
    ensures
        undo_x(x, y, k) >> n == 0,
        undo_y(x, y, k) >> n == 0,
        redo_x(x, y, k) >> n == 0,
        redo_y(x, y, k) >> n == 0,
{
}

/// Undo the rotations of levels `1` up to `j - 1`, lowest level first.
pub open spec fn undo_upto(c: HilbertCoord, j: nat) -> HilbertCoord
    decreases j,
{
    if j <= 1 {
        c
    } else {
        undo_step(undo_upto(c, (j - 1) as nat), (j - 1) as u32)
    }
}

/// Apply the rotations of levels `j - 1` down to `1`, highest level first.
pub open spec fn redo_from(c: HilbertCoord, j: nat) -> HilbertCoord
    decreases j,
{
    if j <= 1 {
        c
    } else {
        redo_from(redo_step(c, (j - 1) as u32), (j - 1) as nat)
    }
}

/// Both coordinates fit in `n` bits.
pub open spec fn coord_fits(c: HilbertCoord, n: u32) -> bool {
    fits(c.x, n) && fits(c.y, n)
}

proof fn lemma_undo_upto_fits(c: HilbertCoord, j: nat, n: u32)
    requires
        j <= n <= 31,
        coord_fits(c, n),
    ensures
        coord_fits(undo_upto(c, j), n),
    decreases j,
{
    if j > 1 {
        lemma_undo_upto_fits(c, (j - 1) as nat, n);
        let d = undo_upto(c, (j - 1) as nat);
        lemma_steps_keep_fit(d.x, d.y, (j - 1) as u32, n);
    }
}

proof fn lemma_redo_from_fits(c: HilbertCoord, j: nat, n: u32)
    requires
        j <= n <= 31,
        coord_fits(c, n),
    ensures
        coord_fits(redo_from(c, j), n),
    decreases j,
{
    if j > 1 {
        lemma_steps_keep_fit(c.x, c.y, (j - 1) as u32, n);
        lemma_redo_from_fits(redo_step(c, (j - 1) as u32), (j - 1) as nat, n);
    }
}

proof fn lemma_undo_redo_upto(c: HilbertCoord, j: nat)
    requires
        j <= 31,
    ensures
        undo_upto(redo_from(c, j), j) == c,
        redo_from(undo_upto(c, j), j) == c,
    decreases j,
{
    if j > 1 {
        let k = (j - 1) as u32;
        lemma_redo_undo_x(c.x, c.y, k);
        lemma_undo_redo_upto(redo_step(c, k), (j - 1) as nat);
        lemma_undo_redo_upto(c, (j - 1) as nat);
        let d = undo_upto(c, (j - 1) as nat);
        lemma_redo_undo_x(d.x, d.y, k);
        assert(redo_step(undo_step(d, k), k) == d);
        assert(undo_step(redo_step(c, k), k) == c);
    }
}

/// The bits below level `n` that the Gray encoding flips, for the levels `j` up to `n - 1` of
/// `v`: every set bit `k` of `v` flips all the bits below `k`.
pub open spec fn gray_mask(v: u32, j: u32, n: u32) -> u32
    decreases n - j,
{
    if j >= n {
        0
    } else {
        gray_mask(v, (j + 1) as u32, n) ^ (if v & (1u32 << j) != 0 { low_mask(j) } else { 0 })
    }
}

/// Gray decoding of the transposed position.
pub open spec fn gray_decode(c: HilbertCoord) -> HilbertCoord {
    HilbertCoord { x: c.x ^ (c.y >> 1), y: c.y ^ c.x }
}

/// Gray encoding of the transposed position, for a curve of `n` iterations.
pub open spec fn gray_encode(c: HilbertCoord, n: u32) -> HilbertCoord {
    let ya = c.y ^ c.x;
    let t = gray_mask(ya, 1, n);
    HilbertCoord { x: c.x ^ t, y: ya ^ t }
}

proof fn lemma_gray_mask_step(v: u32, j: u32, tp: u32)
    by (bit_vector)
    requires
        1 <= j < 31,
        tp == ((v & !low_mask((j + 1) as u32)) ^ tp) >> 1,
    ensures
        (tp ^ (if v & (1u32 << j) != 0 { low_mask(j) } else { 0 })) == ((v & !low_mask(j)) ^ (tp
            ^ (if v & (1u32 << j) != 0 { low_mask(j) } else { 0 }))) >> 1,
{
}

proof fn lemma_gray_mask_base(v: u32, n: u32)
    by (bit_vector)
    requires
        1 <= n <= 31,
        v >> n == 0,
    ensures
        0u32 == ((v & !low_mask(n)) ^ 0u32) >> 1,
{
}

proof fn lemma_gray_mask_fixpoint(v: u32, j: u32, n: u32)
    requires
        1 <= j <= n <= 31,
        v >> n == 0,
    ensures
        gray_mask(v, j, n) == ((v & !low_mask(j)) ^ gray_mask(v, j, n)) >> 1,
        gray_mask(v, j, n) >> n == 0,
    decreases n - j,
{
    if j >= n {
        lemma_gray_mask_base(v, n);
        assert(0u32 >> n == 0) by (bit_vector);
    } else {
        lemma_gray_mask_fixpoint(v, (j + 1) as u32, n);
        lemma_gray_mask_step(v, j, gray_mask(v, (j + 1) as u32, n));
        let tp = gray_mask(v, (j + 1) as u32, n);
        assert(tp >> n == 0 && j < n ==> (tp ^ (if v & (1u32 << j) != 0 { low_mask(j) } else { 0 }))
            >> n == 0) by (bit_vector);
    }
}

proof fn lemma_fixpoint_unique(a: u32, t1: u32, t2: u32)
    by (bit_vector)
    requires
        t1 == (a ^ t1) >> 1,
        t2 == (a ^ t2) >> 1,
    ensures
        t1 == t2,
{
}

proof fn lemma_gray_roundtrip(c: HilbertCoord, n: u32)
    requires
        1 <= n <= 31,
        coord_fits(c, n),
    ensures
        gray_decode(gray_encode(c, n)) == c,
        gray_encode(gray_decode(c), n) == c,
        coord_fits(gray_encode(c, n), n),
        coord_fits(gray_decode(c), n),
{
    let x = c.x;
    let y = c.y;
    let ya = y ^ x;
    assert(ya >> n == 0) by (bit_vector)
        requires
            x >> n == 0,
            y >> n == 0,
            ya == y ^ x,
    ;
    lemma_gray_mask_fixpoint(ya, 1, n);
    let t = gray_mask(ya, 1, n);
    assert(((ya ^ t) >> 1) == t && (x ^ t) >> n == 0 && (ya ^ t) >> n == 0) by (bit_vector)
        requires
            t == ((ya & !low_mask(1)) ^ t) >> 1,
            t >> n == 0,
            x >> n == 0,
            ya >> n == 0,
            n <= 31,
    ;
    assert(gray_decode(gray_encode(c, n)) == c) by {
        assert((x ^ t) ^ ((ya ^ t) >> 1) == x && (ya ^ t) ^ (x ^ t) == y) by (bit_vector)
            requires
                ((ya ^ t) >> 1) == t,
                ya == y ^ x,
        ;
    }
    // the other direction: the mask of the decoded position is the shifted row
    let d = gray_decode(c);
    let dx = d.x;
    let dy = d.y;
    let yb = dy ^ dx;
    assert(yb == y ^ (y >> 1) && yb >> n == 0 && dx >> n == 0 && dy >> n == 0) by (bit_vector)
        requires
            dx == x ^ (y >> 1),
            dy == y ^ x,
            yb == dy ^ dx,
            x >> n == 0,
            y >> n == 0,
            n <= 31,
    ;
    lemma_gray_mask_fixpoint(yb, 1, n);
    let tb = gray_mask(yb, 1, n);
    assert((yb ^ tb) >> 1 == tb) by (bit_vector)
        requires
            tb == ((yb & !low_mask(1)) ^ tb) >> 1,
    ;
    assert((yb ^ (y >> 1)) >> 1 == (y >> 1)) by (bit_vector)
        requires
            yb == y ^ (y >> 1),
    ;
    lemma_fixpoint_unique(yb, tb, y >> 1);
    assert(gray_encode(d, n) == c) by {
        assert((dx ^ (y >> 1)) == x && (yb ^ (y >> 1)) == y) by (bit_vector)
            requires
                dx == x ^ (y >> 1),
                yb == y ^ (y >> 1),
        ;
    }
}

/// The position whose odd bits are the bits of `x` and whose even bits are the bits of `y`,
/// for the low `n` bits of each: bit `2b + 1` is bit `b` of `x`, bit `2b` is bit `b` of `y`.
pub open spec fn interleave(x: u32, y: u32, n: u32) -> u64
    decreases n,
{
    if n == 0 {
        0
    } else {
        ((((x & 1) as u64) << 1u64) | ((y & 1) as u64)) | (interleave(x >> 1u32, y >> 1u32, (n - 1) as u32)
            << 2u64)
    }
}

/// The two numbers whose bits alternate in the low `2n` bits of `h` (see [`interleave`]).
pub open spec fn deinterleave(h: u64, n: u32) -> HilbertCoord
    decreases n,
{
    if n == 0 {
        HilbertCoord { x: 0, y: 0 }
    } else {
        let r = deinterleave(h >> 2u64, (n - 1) as u32);
        HilbertCoord {
            x: (((h >> 1u64) & 1) as u32) | (r.x << 1u32),
            y: ((h & 1) as u32) | (r.y << 1u32),
        }
    }
}

/// `h` fits in `2n` bits.
pub open spec fn fits_position(h: u64, n: u32) -> bool {
    h >> ((2 * n) as u64) == 0
}

proof fn lemma_deinterleave_interleave(x: u32, y: u32, n: u32)
    requires
        n <= 31,
        fits(x, n),
        fits(y, n),
    ensures
        deinterleave(interleave(x, y, n), n) == (HilbertCoord { x, y }),
        fits_position(interleave(x, y, n), n),
    decreases n,
{
    if n == 0 {
        assert(x >> 0u32 == 0 ==> x == 0) by (bit_vector);
        assert(y >> 0u32 == 0 ==> y == 0) by (bit_vector);
        assert(0u64 >> 0u64 == 0) by (bit_vector);
    } else {
        let m = (n - 1) as u32;
        assert((x >> 1u32) >> m == 0 && (y >> 1u32) >> m == 0) by (bit_vector)
            requires
                x >> n == 0,
                y >> n == 0,
                m + 1 == n,
                n <= 31,
        ;
        lemma_deinterleave_interleave(x >> 1u32, y >> 1u32, m);
        let r = interleave(x >> 1u32, y >> 1u32, m);
        let h = interleave(x, y, n);
        assert(h == ((((x & 1) as u64) << 1u64) | ((y & 1) as u64)) | (r << 2u64));
        let d = deinterleave(r, m);
        let dx = d.x;
        let dy = d.y;
        assert(dx == x >> 1u32 && dy == y >> 1u32);
        assert(h >> 2u64 == r && (((h >> 1u64) & 1) as u32) | (dx << 1u32) == x && ((h & 1)
            as u32) | (dy << 1u32) == y && h >> ((2 * n) as u64) == 0) by (bit_vector)
            requires
                h == ((((x & 1) as u64) << 1u64) | ((y & 1) as u64)) | (r << 2u64),
                r >> ((2 * m) as u64) == 0,
                dx == x >> 1u32,
                dy == y >> 1u32,
                m + 1 == n,
                n <= 31,
        ;
    }
}

proof fn lemma_interleave_deinterleave(h: u64, n: u32)
    requires
        n <= 31,
        fits_position(h, n),
    ensures
        interleave(deinterleave(h, n).x, deinterleave(h, n).y, n) == h,
        fits(deinterleave(h, n).x, n),
        fits(deinterleave(h, n).y, n),
    decreases n,
{
    if n == 0 {
        assert(h >> 0u64 == 0 ==> h == 0) by (bit_vector);
        assert(0u32 >> 0u32 == 0) by (bit_vector);
    } else {
        let m = (n - 1) as u32;
        let hr = h >> 2u64;
        assert(hr >> ((2 * m) as u64) == 0) by (bit_vector)
            requires
                h >> ((2 * n) as u64) == 0,
                hr == h >> 2u64,
                m + 1 == n,
                n <= 31,
        ;
        lemma_interleave_deinterleave(hr, m);
        let r = deinterleave(hr, m);
        let rx = r.x;
        let ry = r.y;
        let big_x = (((h >> 1u64) & 1) as u32) | (rx << 1u32);
        let big_y = ((h & 1) as u32) | (ry << 1u32);
        assert(deinterleave(h, n) == HilbertCoord { x: big_x, y: big_y });
        assert(big_x >> 1u32 == rx && big_y >> 1u32 == ry && big_x >> n == 0 && big_y >> n == 0
            && ((((big_x & 1) as u64) << 1u64) | ((big_y & 1) as u64)) | (hr << 2u64) == h) by (bit_vector)
            requires
                big_x == (((h >> 1u64) & 1) as u32) | (rx << 1u32),
                big_y == ((h & 1) as u32) | (ry << 1u32),
                rx >> m == 0,
                ry >> m == 0,
                hr == h >> 2u64,
                m + 1 == n,
                n <= 31,
        ;
        assert(interleave(big_x, big_y, n) == ((((big_x & 1) as u64) << 1u64) | ((big_y & 1) as u64))
            | (interleave(big_x >> 1u32, big_y >> 1u32, m) << 2u64));
    }
}

/// The grid cell at position `h` along a curve of `n` iterations.
pub open spec fn position_to_coord(h: u64, n: u32) -> HilbertCoord {
    undo_upto(gray_decode(deinterleave(h, n)), n as nat)
}

/// The position along a curve of `n` iterations of the grid cell `c`.
pub open spec fn coord_to_position(c: HilbertCoord, n: u32) -> u64 {
    let e = gray_encode(redo_from(c, n as nat), n);
    interleave(e.x, e.y, n)
}

/// Going from a grid cell to its position along the curve and back gives the same cell, for
/// every cell of the `2^n` by `2^n` grid.
pub proof fn lemma_coord_position_roundtrip(c: HilbertCoord, n: u32)
    requires
        1 <= n <= 31,
        coord_fits(c, n),
    ensures
        fits_position(coord_to_position(c, n), n),
        position_to_coord(coord_to_position(c, n), n) == c,
{
    lemma_redo_from_fits(c, n as nat, n);
    let r = redo_from(c, n as nat);
    lemma_gray_roundtrip(r, n);
    let e = gray_encode(r, n);
    lemma_deinterleave_interleave(e.x, e.y, n);
    lemma_undo_redo_upto(c, n as nat);
}

/// Going from a position along the curve to its grid cell and back gives the same position,
/// for every position `0..4^n`.
pub proof fn lemma_position_coord_roundtrip(h: u64, n: u32)
    requires
        1 <= n <= 31,
        fits_position(h, n),
    ensures
        coord_fits(position_to_coord(h, n), n),
        coord_to_position(position_to_coord(h, n), n) == h,
{
    lemma_interleave_deinterleave(h, n);
    let d = deinterleave(h, n);
    lemma_gray_roundtrip(d, n);
    let g = gray_decode(d);
    lemma_undo_upto_fits(g, n as nat, n);
    lemma_undo_redo_upto(g, n as nat);
}

fn exec_interleave(x: u32, y: u32, n: u32) -> (r: u64)
    requires
        n <= 31,
        fits(x, n),
        fits(y, n),
    ensures
        r == interleave(x, y, n),
    decreases n,
{
    if n == 0 {
        0
    } else {
        let m = n - 1;
        assert((x >> 1u32) >> m == 0 && (y >> 1u32) >> m == 0) by (bit_vector)
            requires
                x >> n == 0,
                y >> n == 0,
                m + 1 == n,
                n <= 31,
        ;
        let rest = exec_interleave(x >> 1, y >> 1, m);
        ((((x & 1) as u64) << 1u64) | ((y & 1) as u64)) | (rest << 2u64)
    }
}

fn exec_deinterleave(h: u64, n: u32) -> (r: HilbertCoord)
    ensures
        r == deinterleave(h, n),
    decreases n,
{
    if n == 0 {
        HilbertCoord { x: 0, y: 0 }
    } else {
        let r = exec_deinterleave(h >> 2u64, n - 1);
        HilbertCoord {
            x: (((h >> 1u64) & 1) as u32) | (r.x << 1u32),
            y: ((h & 1) as u32) | (r.y << 1u32),
        }
    }
}

/// A Hilbert curve over a `2^iterations` by `2^iterations` grid.
pub struct HilbertCurve {
    iterations: u32,
}

impl HilbertCurve {
    /// The curve has between 1 and 31 iterations, so a position fits in 62 bits.
    #[verifier::type_invariant]
    spec fn inv(self) -> bool {
        1 <= self.iterations <= 31
    }

    /// The number of iterations of the curve.
    pub closed spec fn spec_iterations(self) -> u32 {
        self.iterations
    }

    /// A curve of `iterations` iterations; the number of iterations must be in the range 1 to 31
    /// inclusive, so that the positions fit the binary transformation.
    pub fn new(iterations: u32) -> (r: HilbertCurve)
        requires
            1 <= iterations <= 31,
        ensures
            r.spec_iterations() == iterations,
    {
        HilbertCurve { iterations }
    }

    /// The number of iterations of the curve.
    pub fn iterations(&self) -> (r: u32)
        ensures
            r == self.spec_iterations(),
            1 <= r <= 31,
    {
        proof {
            use_type_invariant(self);
        }
        self.iterations
    }

    /// The largest grid coordinate of a curve with `iterations` iterations, `2^iterations - 1`.
    pub fn calc_max_dim_for_iterations(iterations: u32) -> (r: u32)
        requires
            iterations < 32,
        ensures
            r == low_mask(iterations),
            r as nat == vstd::arithmetic::power2::pow2(iterations as nat) - 1,
    {
        proof {
            vstd::bits::lemma_u32_pow2_no_overflow(iterations as nat);
            vstd::bits::lemma_u32_shl_is_mul(1, iterations);
        }
        (1u32 << iterations) - 1u32
    }

    /// The largest position along this curve, `4^iterations - 1`.
    pub fn calc_max_num(&self) -> (r: u64)
        ensures
            r as nat == vstd::arithmetic::power2::pow2((2 * self.spec_iterations()) as nat) - 1,
            forall|h: u64| h <= r <==> #[trigger] fits_position(h, self.spec_iterations()),
    {
        proof {
            use_type_invariant(self);
        }
        let iterations = self.iterations as u64;
        proof {
            vstd::bits::lemma_u64_pow2_no_overflow((2 * iterations) as nat);
            vstd::bits::lemma_u64_shl_is_mul(1, (2 * iterations) as u64);
        }
        let r = (1u64 << (2 * iterations)) - 1u64;
        assert forall|h: u64| h <= r <==> #[trigger] fits_position(h, self.spec_iterations()) by {
            let n = self.iterations;
            assert(h <= ((1u64 << ((2 * n) as u64)) - 1) as u64 <==> h >> ((2 * n) as u64) == 0)
                by (bit_vector)
                requires
                    1 <= n <= 31,
            ;
        }
        r
    }

    /// The grid cell at position `hilbert_int` along the curve.
    pub fn integer_to_coords(&self, hilbert_int: u64) -> (r: HilbertCoord)
        requires
            fits_position(hilbert_int, self.spec_iterations()),
        ensures
            r == position_to_coord(hilbert_int, self.spec_iterations()),
            coord_fits(r, self.spec_iterations()),
    {
        proof {
            use_type_invariant(self);
            lemma_position_coord_roundtrip(hilbert_int, self.iterations);
        }
        let n = self.iterations;
        let transposed = exec_deinterleave(hilbert_int, n);
        let mut x = transposed.x ^ (transposed.y >> 1u32);
        let mut y = transposed.y ^ transposed.x;
        let ghost start = HilbertCoord { x, y };
        assert(start == gray_decode(deinterleave(hilbert_int, n)));
        let mut k: u32 = 1;
        while k < n
            invariant
                1 <= k <= n <= 31,
                (HilbertCoord { x, y }) == undo_upto(start, k as nat),
            decreases n - k,
        {
            let q = 1u32 << k;
            assert(q >= 1 && (q - 1u32) as u32 == low_mask(k)) by (bit_vector)
                requires
                    q == 1u32 << k,
                    1 <= k < 31,
            ;
            let p = q - 1u32;
            let ghost before = HilbertCoord { x, y };
            if (y & q) != 0 {
                x = x ^ p;
            } else {
                let t = (x ^ y) & p;
                x = x ^ t;
                y = y ^ t;
            }
            if (x & q) != 0 {
                x = x ^ p;
            }
            assert((HilbertCoord { x, y }) == undo_step(before, k));
            k = k + 1;
        }
        HilbertCoord { x, y }
    }

    /// The position along the curve of the grid cell `coord`.
    pub fn coords_to_integer(&self, coord: HilbertCoord) -> (r: u64)
        requires
            coord_fits(coord, self.spec_iterations()),
        ensures
            r == coord_to_position(coord, self.spec_iterations()),
            fits_position(r, self.spec_iterations()),
    {
        proof {
            use_type_invariant(self);
            lemma_coord_position_roundtrip(coord, self.iterations);
        }
        let n = self.iterations;
        let mut x = coord.x;
        let mut y = coord.y;
        let mut k: u32 = n - 1;
        while k >= 1
            invariant
                k < n <= 31,
                coord_fits((HilbertCoord { x, y }), n),
                redo_from((HilbertCoord { x, y }), (k + 1) as nat) == redo_from(coord, n as nat),
            decreases k,
        {
            let q = 1u32 << k;
            assert(q >= 1 && (q - 1u32) as u32 == low_mask(k)) by (bit_vector)
                requires
                    q == 1u32 << k,
                    1 <= k < 31,
            ;
            let p = q - 1u32;
            proof {
                lemma_steps_keep_fit(x, y, k, n);
            }
            let ghost before = HilbertCoord { x, y };
            if (x & q) != 0 {
                x = x ^ p;
            }
            if (y & q) != 0 {
                x = x ^ p;
            } else {
                let t = (x ^ y) & p;
                x = x ^ t;
                y = y ^ t;
            }
            assert((HilbertCoord { x, y }) == redo_step(before, k));
            k = k - 1;
        }
        assert((HilbertCoord { x, y }) == redo_from(coord, n as nat));
        // Gray encode
        let ghost rotated = HilbertCoord { x, y };
        y = y ^ x;
        let mut t: u32 = 0;
        let mut j: u32 = n - 1;
        while j >= 1
            invariant
                j < n <= 31,
                t == gray_mask(y, (j + 1) as u32, n),
            decreases j,
        {
            let q = 1u32 << j;
            assert(q >= 1 && (q - 1u32) as u32 == low_mask(j)) by (bit_vector)
                requires
                    q == 1u32 << j,
                    1 <= j < 31,
            ;
            let ghost before = t;
            if (y & q) != 0 {
                t = t ^ (q - 1u32);
            }
            assert(before ^ 0u32 == before) by (bit_vector);
            assert(t == gray_mask(y, j, n));
            j = j - 1;
        }
        x = x ^ t;
        y = y ^ t;
        assert((HilbertCoord { x, y }) == gray_encode(rotated, n));
        proof {
            lemma_gray_roundtrip(rotated, n);
        }
        exec_interleave(x, y, n)
    }
}

} // verus!
