use vstd::prelude::*;

verus! {

/// The four RGBA bytes of pixel `(x, y)` in a row-major frame `w` pixels wide.
pub open spec fn pixel_at(f: Seq<u8>, w: int, x: int, y: int) -> Seq<u8> {
    f.subrange(4 * (y * w + x), 4 * (y * w + x) + 4)
}

pub proof fn lemma_pixel_index_in_range(w: int, h: int, x: int, y: int)
    requires
        0 <= x < w,
        0 <= y < h,
    ensures
        0 <= y * w + x < w * h,
{
    assert(0 <= y * w + x < w * h) by (nonlinear_arith)
        requires
            0 <= x < w,
            0 <= y < h,
    ;
}

pub proof fn lemma_pixel_index_distinct(w: int, x: int, y: int, x2: int, y2: int)
    requires
        0 <= x < w,
        0 <= x2 < w,
        0 <= y,
        0 <= y2,
        x != x2 || y != y2,
    ensures
        y * w + x != y2 * w + x2,
{
    if y < y2 {
        assert(y * w + x < y2 * w + x2) by (nonlinear_arith)
            requires
                0 <= x < w,
                0 <= x2,
                y < y2,
        ;
    } else if y2 < y {
        assert(y2 * w + x2 < y * w + x) by (nonlinear_arith)
            requires
                0 <= x2 < w,
                0 <= x,
                y2 < y,
        ;
    }
}

/// Writes one pixel, leaving every other pixel of the frame as it was.
pub fn set_pixel(frame: &mut Vec<u8>, w: usize, h: usize, x: usize, y: usize, px: [u8; 4])
    requires
        old(frame)@.len() == w * h * 4,
        x < w,
        y < h,
    ensures
        final(frame)@.len() == old(frame)@.len(),
        pixel_at(final(frame)@, w as int, x as int, y as int) == px@,
        forall|x2: int, y2: int|
            0 <= x2 < w && 0 <= y2 < h && (x2 != x || y2 != y) ==> #[trigger] pixel_at(
                final(frame)@,
                w as int,
                x2,
                y2,
            ) == pixel_at(old(frame)@, w as int, x2, y2),
{
    let len = frame.len();
    proof {
        lemma_pixel_index_in_range(w as int, h as int, x as int, y as int);
        assert((y * w + x) * 4 + 4 <= w * h * 4) by (nonlinear_arith)
            requires
                y * w + x < w * h,
        ;
    }
    let ghost before = frame@;
    let base = (y * w + x) * 4;
    frame.set(base, px[0]);
    frame.set(base + 1, px[1]);
    frame.set(base + 2, px[2]);
    frame.set(base + 3, px[3]);
    assert(pixel_at(frame@, w as int, x as int, y as int) =~= px@);
    assert forall|x2: int, y2: int|
        0 <= x2 < w && 0 <= y2 < h && (x2 != x || y2 != y) implies #[trigger] pixel_at(
        frame@,
        w as int,
        x2,
        y2,
    ) == pixel_at(before, w as int, x2, y2) by {
        lemma_pixel_index_in_range(w as int, h as int, x2, y2);
        lemma_pixel_index_distinct(w as int, x as int, y as int, x2, y2);
        assert(pixel_at(frame@, w as int, x2, y2) =~= pixel_at(before, w as int, x2, y2));
    }
}

} // verus!
