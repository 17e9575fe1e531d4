use vstd::prelude::*;
use vstd::arithmetic::div_mod::{
    lemma_div_is_ordered, lemma_div_multiples_vanish, lemma_hoist_over_denominator,
    lemma_mod_add_multiples_vanish, lemma_mod_multiples_basic, lemma_mod_multiples_vanish,
};
use crate::fixed::{floor_div, wrap_index, FIXED_ONE};
use crate::map::{frac, whole, wrap, Terrain};

verus! {

/// Linear blend of `a` and `b` with weight `t / FIXED_ONE` on `b`, exact.
pub open spec fn lerp(a: int, b: int, t: int) -> int {
    a * (FIXED_ONE - t) + b * t
}

/// Bilinear height at the fixed-point position `(x, y)`, exact, in units of
/// `1 / (FIXED_ONE * FIXED_ONE)`.
pub open spec fn height_interpolated(t: Terrain, x: int, y: int) -> int {
    let cx = whole(x);
    let cy = whole(y);
    lerp(
        lerp(t.height_at(cx, cy), t.height_at(cx + 1, cy), frac(x)),
        lerp(t.height_at(cx, cy + 1), t.height_at(cx + 1, cy + 1), frac(x)),
        frac(y),
    )
}

/// One channel of the bilinear color at `(x, y)`: the exact blend of the
/// four surrounding cells, truncated once to a whole value.
pub open spec fn channel_interpolated(t: Terrain, x: int, y: int, c: int) -> int {
    let cx = whole(x);
    let cy = whole(y);
    lerp(
        lerp(t.channel_at(cx, cy, c), t.channel_at(cx + 1, cy, c), frac(x)),
        lerp(t.channel_at(cx, cy + 1, c), t.channel_at(cx + 1, cy + 1, c), frac(x)),
        frac(y),
    ) / (FIXED_ONE * FIXED_ONE)
}

pub proof fn lemma_lerp_bound(a: int, b: int, t: int, m: int)
    requires
        0 <= a <= m,
        0 <= b <= m,
        0 <= t < FIXED_ONE,
    ensures
        0 <= lerp(a, b, t) <= m * FIXED_ONE,
{
    assert(0 <= a * (FIXED_ONE - t) + b * t <= m * FIXED_ONE) by (nonlinear_arith)
        requires
            0 <= a <= m,
            0 <= b <= m,
            0 <= t < FIXED_ONE,
    ;
}

/// Exact blend in `u64`; operands up to `255 * FIXED_ONE`.
fn lerp_exec(a: u64, b: u64, t: u64) -> (r: u64)
    requires
        a <= 255 * FIXED_ONE,
        b <= 255 * FIXED_ONE,
        t < FIXED_ONE,
    ensures
        r == lerp(a as int, b as int, t as int),
{
    proof {
        lemma_lerp_bound(a as int, b as int, t as int, 255 * FIXED_ONE);
        assert(a * (256 - t) <= 255 * 256 * 256) by (nonlinear_arith)
            requires
                a <= 255 * 256,
                t < 256,
        ;
        assert(b * t <= 255 * 256 * 256) by (nonlinear_arith)
            requires
                b <= 255 * 256,
                t < 256,
        ;
    }
    a * (256 - t) + b * t
}

/// One channel of the bilinear blend of four byte values, truncated once.
fn blend_channel(c00: u8, c10: u8, c01: u8, c11: u8, tx: u64, ty: u64) -> (r: u8)
    requires
        tx < FIXED_ONE,
        ty < FIXED_ONE,
    ensures
        r == lerp(lerp(c00 as int, c10 as int, tx as int), lerp(c01 as int, c11 as int, tx as int), ty as int)
            / (FIXED_ONE * FIXED_ONE),
{
    proof {
        lemma_lerp_bound(c00 as int, c10 as int, tx as int, 255);
        lemma_lerp_bound(c01 as int, c11 as int, tx as int, 255);
    }
    let v0 = lerp_exec(c00 as u64, c10 as u64, tx);
    let v1 = lerp_exec(c01 as u64, c11 as u64, tx);
    let v = lerp_exec(v0, v1, ty);
    proof {
        lemma_lerp_bound(v0 as int, v1 as int, ty as int, 255 * FIXED_ONE);
        lemma_div_is_ordered(v as int, 255 * 65536int, 65536int);
        lemma_div_multiples_vanish(255int, 65536int);
    }
    (v / 65536) as u8
}

/// Bilinear height of the terrain at the fixed-point position `(x, y)`,
/// wrapping around the map on both axes. The result is exact, counted in
/// units of `1 / (FIXED_ONE * FIXED_ONE)`.
pub fn get_height_interpolated(x: i64, y: i64, terrain: &Terrain) -> (r: u32)
    requires
        terrain.wf(),
    ensures
        r == height_interpolated(*terrain, x as int, y as int),
{
    let cx = floor_div(x, FIXED_ONE);
    let cy = floor_div(y, FIXED_ONE);
    let tx = wrap_index(x, 256) as u64;
    let ty = wrap_index(y, 256) as u64;
    proof {
        assert(cx < i64::MAX && cy < i64::MAX) by (nonlinear_arith)
            requires
                cx == x as int / 256,
                cy == y as int / 256,
        ;
    }
    let h00 = terrain.height_cell(cx, cy) as u64;
    let h10 = terrain.height_cell(cx + 1, cy) as u64;
    let h01 = terrain.height_cell(cx, cy + 1) as u64;
    let h11 = terrain.height_cell(cx + 1, cy + 1) as u64;
    let h0 = lerp_exec(h00, h10, tx);
    let h1 = lerp_exec(h01, h11, tx);
    proof {
        lemma_lerp_bound(h00 as int, h10 as int, tx as int, 255);
        lemma_lerp_bound(h01 as int, h11 as int, tx as int, 255);
        lemma_lerp_bound(h0 as int, h1 as int, ty as int, 255 * FIXED_ONE);
    }
    let h = lerp_exec(h0, h1, ty);
    h as u32
}

/// Bilinear color of the terrain at the fixed-point position `(x, y)`,
/// wrapping around the map on both axes; each channel is the exact bilinear
/// blend of the four surrounding cells, truncated once.
pub fn get_color_interpolated(x: i64, y: i64, terrain: &Terrain) -> (r: [u8; 3])
    requires
        terrain.wf(),
    ensures
        r@ == seq![
            channel_interpolated(*terrain, x as int, y as int, 0) as u8,
            channel_interpolated(*terrain, x as int, y as int, 1) as u8,
            channel_interpolated(*terrain, x as int, y as int, 2) as u8,
        ],
{
    let cx = floor_div(x, FIXED_ONE);
    let cy = floor_div(y, FIXED_ONE);
    let tx = wrap_index(x, 256) as u64;
    let ty = wrap_index(y, 256) as u64;
    proof {
        assert(cx < i64::MAX && cy < i64::MAX) by (nonlinear_arith)
            requires
                cx == x as int / 256,
                cy == y as int / 256,
        ;
    }
    let c00 = terrain.color_cell(cx, cy);
    let c10 = terrain.color_cell(cx + 1, cy);
    let c01 = terrain.color_cell(cx, cy + 1);
    let c11 = terrain.color_cell(cx + 1, cy + 1);
    let r0 = blend_channel(c00[0], c10[0], c01[0], c11[0], tx, ty);
    let r1 = blend_channel(c00[1], c10[1], c01[1], c11[1], tx, ty);
    let r2 = blend_channel(c00[2], c10[2], c01[2], c11[2], tx, ty);
    let r = [r0, r1, r2];
    assert(r@ =~= seq![
        channel_interpolated(*terrain, x as int, y as int, 0) as u8,
        channel_interpolated(*terrain, x as int, y as int, 1) as u8,
        channel_interpolated(*terrain, x as int, y as int, 2) as u8,
    ]);
    r
}

/// At a whole-numbered position the samplers return the stored cell exactly:
/// a blend with zero fractional weight is the identity.
pub proof fn lemma_sample_at_grid_point(t: Terrain, a: int, b: int)
    requires
        t.wf(),
    ensures
        height_interpolated(t, a * FIXED_ONE, b * FIXED_ONE) == t.height_at(a, b) * FIXED_ONE
            * FIXED_ONE,
        forall|c: int|
            0 <= c < 3 ==> #[trigger] channel_interpolated(t, a * FIXED_ONE, b * FIXED_ONE, c)
                == t.channel_at(a, b, c),
{
    let s = FIXED_ONE as int;
    lemma_div_multiples_vanish(a, s);
    lemma_div_multiples_vanish(b, s);
    lemma_mod_multiples_basic(a, s);
    lemma_mod_multiples_basic(b, s);
    assert(s * a == a * s && s * b == b * s) by (nonlinear_arith);
    assert(whole(a * s) == a && frac(a * s) == 0);
    assert(whole(b * s) == b && frac(b * s) == 0);
    assert forall|c: int| 0 <= c < 3 implies #[trigger] channel_interpolated(
        t,
        a * FIXED_ONE,
        b * FIXED_ONE,
        c,
    ) == t.channel_at(a, b, c) by {
        let v = t.channel_at(a, b, c);
        lemma_div_multiples_vanish(v, s * s);
        assert(lerp(v, t.channel_at(a + 1, b, c), 0) == s * v);
        let w = lerp(t.channel_at(a, b + 1, c), t.channel_at(a + 1, b + 1, c), 0);
        assert(lerp(s * v, w, 0) == (s * s) * v) by (nonlinear_arith)
            requires
                s == 256,
        ;
    }
}

proof fn lemma_shift_by_map(t: Terrain, v: int)
    requires
        t.wf(),
    ensures
        whole(v + t.n * FIXED_ONE) == whole(v) + t.n,
        frac(v + t.n * FIXED_ONE) == frac(v),
        forall|k: int| #[trigger] wrap(k + t.n, t.n as nat) == wrap(k, t.n as nat),
{
    let s = FIXED_ONE as int;
    lemma_hoist_over_denominator(v, t.n as int, FIXED_ONE as nat);
    lemma_mod_multiples_vanish(t.n as int, v, s);
    assert(s * t.n + v == v + t.n * s) by (nonlinear_arith);
    assert forall|k: int| #[trigger] wrap(k + t.n, t.n as nat) == wrap(k, t.n as nat) by {
        lemma_mod_add_multiples_vanish(k, t.n as int);
    }
}

/// The map tiles the plane: moving either coordinate by one map side
/// (`n * FIXED_ONE` in fixed point) leaves both samplers unchanged. This holds
/// for every position, so two calls of `get_height_interpolated` (or of
/// `get_color_interpolated`) whose coordinates differ by one map side return
/// the same value.
pub proof fn lemma_sample_periodic(t: Terrain, x: int, y: int)
    requires
        t.wf(),
    ensures
        height_interpolated(t, x + t.n * FIXED_ONE, y) == height_interpolated(t, x, y),
        height_interpolated(t, x, y + t.n * FIXED_ONE) == height_interpolated(t, x, y),
        forall|c: int|
            #![trigger channel_interpolated(t, x + t.n * FIXED_ONE, y, c)]
            channel_interpolated(t, x + t.n * FIXED_ONE, y, c) == channel_interpolated(t, x, y, c),
        forall|c: int|
            #![trigger channel_interpolated(t, x, y + t.n * FIXED_ONE, c)]
            channel_interpolated(t, x, y + t.n * FIXED_ONE, c) == channel_interpolated(t, x, y, c),
{
    lemma_shift_by_map(t, x);
    lemma_shift_by_map(t, y);
    let n = t.n as int;
    let cx = whole(x);
    let cy = whole(y);
    assert(wrap(cx + n, t.n as nat) == wrap(cx, t.n as nat));
    assert(wrap(cx + 1 + n, t.n as nat) == wrap(cx + 1, t.n as nat));
    assert(wrap(cy + n, t.n as nat) == wrap(cy, t.n as nat));
    assert(wrap(cy + 1 + n, t.n as nat) == wrap(cy + 1, t.n as nat));
    assert(cx + n + 1 == cx + 1 + n && cy + n + 1 == cy + 1 + n);
}

} // verus!
