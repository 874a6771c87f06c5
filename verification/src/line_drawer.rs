//! Integer-error line rasterization for wireframes.
//!
//! The classic error-accumulation algorithm: axes are transposed when the
//! line is steep so that the iterated axis always has the larger delta, the
//! endpoints are swapped so iteration runs low-to-high, and the secondary
//! coordinate is corrected by one whenever the accumulated error exceeds
//! the primary delta.  One pixel is produced per unit step along the
//! dominant axis; the final endpoint is not drawn (half-open interval).

use crate::image::{lemma_pix_index_injective, Image, Rgb};
use vstd::prelude::*;

verus! {

/// The absolute difference of two integers.
pub open spec fn spec_abs_diff(a: int, b: int) -> int {
    if a >= b {
        a - b
    } else {
        b - a
    }
}

/// Whether the segment is steep: the axes are transposed so the iterated
/// axis has the larger delta.
pub open spec fn spec_line_transposed(x0: u16, y0: u16, x1: u16, y1: u16) -> bool {
    spec_abs_diff(x0 as int, x1 as int) < spec_abs_diff(y0 as int, y1 as int)
}

/// The endpoints `(s, t, e, f)` actually iterated: primary start `s`,
/// secondary start `t`, primary end `e`, secondary end `f`, after the
/// transpose and the low-to-high swap.  Always `s <= e` and
/// `|f - t| <= e - s`.
pub open spec fn spec_line_endpoints(x0: u16, y0: u16, x1: u16, y1: u16) -> (int, int, int, int) {
    let (a0, b0, a1, b1) = if spec_line_transposed(x0, y0, x1, y1) {
        (y0 as int, x0 as int, y1 as int, x1 as int)
    } else {
        (x0 as int, y0 as int, x1 as int, y1 as int)
    };
    if a0 > a1 {
        (a1, b1, a0, b0)
    } else {
        (a0, b0, a1, b1)
    }
}

/// How many pixels the segment produces: its delta along the dominant axis.
pub open spec fn spec_line_len(x0: u16, y0: u16, x1: u16, y1: u16) -> int {
    let (s, t, e, f) = spec_line_endpoints(x0, y0, x1, y1);
    e - s
}

/// How far the secondary coordinate has moved after `k` steps of a segment
/// with primary delta `dx` and secondary delta `dy`: the closed form of the
/// error-accumulation recurrence, the nearest-integer interpolation
/// `floor((2 * k * dy + dx - 1) / (2 * dx))`.
pub open spec fn spec_line_sec(k: int, dy: int, dx: int) -> int {
    (2 * k * dy + dx - 1) / (2 * dx)
}

/// The `k`-th pixel the segment covers, for `0 <= k < spec_line_len`.
pub open spec fn spec_line_pixel(x0: u16, y0: u16, x1: u16, y1: u16, k: int) -> (int, int) {
    let (s, t, e, f) = spec_line_endpoints(x0, y0, x1, y1);
    let dx = e - s;
    let dy = spec_abs_diff(f, t);
    let p = s + k;
    let q = if f >= t {
        t + spec_line_sec(k, dy, dx)
    } else {
        t - spec_line_sec(k, dy, dx)
    };
    if spec_line_transposed(x0, y0, x1, y1) {
        (q, p)
    } else {
        (p, q)
    }
}

/// Whether `(u, v)` is one of the first `n` pixels of the segment.
pub open spec fn spec_line_covers_upto(
    x0: u16,
    y0: u16,
    x1: u16,
    y1: u16,
    n: int,
    u: int,
    v: int,
) -> bool {
    exists|k: int| 0 <= k < n && #[trigger] spec_line_pixel(x0, y0, x1, y1, k) == (u, v)
}

/// Whether `(u, v)` lies on the rasterized segment.
pub open spec fn spec_line_covers(x0: u16, y0: u16, x1: u16, y1: u16, u: int, v: int) -> bool {
    spec_line_covers_upto(x0, y0, x1, y1, spec_line_len(x0, y0, x1, y1), u, v)
}

/// Before any step, the secondary coordinate has not moved.
proof fn lemma_line_sec_zero(dy: int, dx: int)
    requires
        dx > 0,
    ensures
        spec_line_sec(0, dy, dx) == 0,
{
    assert(2 * 0 * dy + dx - 1 == dx - 1) by (nonlinear_arith);
    assert(dx - 1 == 0 * (2 * dx) + (dx - 1)) by (nonlinear_arith);
    vstd::arithmetic::div_mod::lemma_fundamental_div_mod_converse(dx - 1, 2 * dx, 0, dx - 1);
}

/// The error bound `-dx < 2 * k * dy - 2 * c * dx <= dx` pins the number of
/// corrections `c` to the closed form.
proof fn lemma_line_sec_step(k: int, dy: int, dx: int, c: int, e: int)
    requires
        dx > 0,
        0 <= dy,
        0 <= k,
        e == 2 * k * dy - 2 * c * dx,
        -dx < e <= dx,
    ensures
        c == spec_line_sec(k, dy, dx),
{
    assert(2 * k * dy + dx - 1 == c * (2 * dx) + (e + dx - 1)) by (nonlinear_arith)
        requires
            e == 2 * k * dy - 2 * c * dx,
    ;
    vstd::arithmetic::div_mod::lemma_fundamental_div_mod_converse(
        2 * k * dy + dx - 1,
        2 * dx,
        c,
        e + dx - 1,
    );
}

/// The secondary coordinate never moves past the secondary delta.
proof fn lemma_line_sec_bounds(k: int, dy: int, dx: int)
    requires
        dx > 0,
        0 <= dy,
        0 <= k <= dx,
    ensures
        0 <= spec_line_sec(k, dy, dx) <= dy,
{
    let n = 2 * k * dy + dx - 1;
    assert(0 <= 2 * k * dy && 2 * k * dy <= 2 * dx * dy) by (nonlinear_arith)
        requires
            0 <= k <= dx && 0 <= dy,
    ;
    let q = spec_line_sec(k, dy, dx);
    vstd::arithmetic::div_mod::lemma_fundamental_div_mod(n, 2 * dx);
    vstd::arithmetic::div_mod::lemma_mod_bound(n, 2 * dx);
    if q < 0 {
        assert((2 * dx) * q <= (2 * dx) * -1) by (nonlinear_arith)
            requires
                dx > 0 && q <= -1,
        ;
    }
    if q > dy {
        assert((2 * dx) * q >= (2 * dx) * (dy + 1)) by (nonlinear_arith)
            requires
                dx > 0 && q >= dy + 1,
        ;
        assert((2 * dx) * (dy + 1) == 2 * dx * dy + 2 * dx) by (nonlinear_arith);
    }
}

/// A level segment stays on its row: with no secondary delta the secondary
/// coordinate never moves, so the pixels are exactly the half-open run of
/// columns between the endpoints.
pub proof fn lemma_horizontal_line(x0: u16, y0: u16, x1: u16, k: int)
    requires
        0 <= k <= spec_line_len(x0, y0, x1, y0),
        spec_line_len(x0, y0, x1, y0) > 0,
    ensures
        spec_line_pixel(x0, y0, x1, y0, k) == (
            (if x0 <= x1 {
                x0 as int
            } else {
                x1 as int
            }) + k,
            y0 as int,
        ),
{
    let (s, t, e, f) = spec_line_endpoints(x0, y0, x1, y0);
    lemma_line_sec_bounds(k, 0, e - s);
}

/// Draws the half-open segment from `(x0, y0)` to `(x1, y1)`: every covered
/// pixel that lies inside the image takes `color`, every other pixel keeps
/// its value.
pub fn line(x0: u16, y0: u16, x1: u16, y1: u16, img: &mut Image, color: Rgb)
    requires
        old(img).wf(),
    ensures
        final(img).wf(),
        final(img).width == old(img).width,
        final(img).height == old(img).height,
        forall|u: int, v: int|
            old(img).in_bounds(u, v) ==> #[trigger] final(img).pixel_at(u, v) == (
            if spec_line_covers(x0, y0, x1, y1, u, v) {
                color
            } else {
                old(img).pixel_at(u, v)
            }),
{
    let mut start_x: u16 = x0;
    let mut start_y: u16 = y0;
    let mut end_x: u16 = x1;
    let mut end_y: u16 = y1;

    let adx: u16 = if x0 >= x1 {
        x0 - x1
    } else {
        x1 - x0
    };
    let ady: u16 = if y0 >= y1 {
        y0 - y1
    } else {
        y1 - y0
    };
    let mut transposed: bool = false;
    if adx < ady {
        let tmp_start: u16 = start_x;
        start_x = start_y;
        start_y = tmp_start;
        let tmp_end: u16 = end_x;
        end_x = end_y;
        end_y = tmp_end;
        transposed = true;
    }
    if start_x > end_x {
        let tmp_x: u16 = start_x;
        start_x = end_x;
        end_x = tmp_x;
        let tmp_y: u16 = start_y;
        start_y = end_y;
        end_y = tmp_y;
    }
    let ghost img0: Image = *img;
    let ghost s: int = start_x as int;
    let ghost t: int = start_y as int;
    let ghost e: int = end_x as int;
    let ghost f: int = end_y as int;
    assert((s, t, e, f) == spec_line_endpoints(x0, y0, x1, y1));
    assert(transposed == spec_line_transposed(x0, y0, x1, y1));

    let dx: i64 = (end_x - start_x) as i64;
    let dy: i64 = (if end_y >= start_y {
        end_y - start_y
    } else {
        start_y - end_y
    }) as i64;
    let derror2: i64 = 2 * dy;
    let mut error2: i64 = 0;
    let mut y: u16 = start_y;
    let mut x: u16 = start_x;
    proof {
        if dx > 0 {
            lemma_line_sec_zero(dy as int, dx as int);
            assert(2 * 0 * (dy as int) - 2 * 0 * (dx as int) == 0) by (nonlinear_arith);
        }
    }
    while x < end_x
        invariant
            img.wf(),
            img.width == img0.width,
            img.height == img0.height,
            img0.wf(),
            (s, t, e, f) == spec_line_endpoints(x0, y0, x1, y1),
            s == start_x as int,
            t == start_y as int,
            transposed == spec_line_transposed(x0, y0, x1, y1),
            dx == e - s,
            dy == spec_abs_diff(f, t),
            0 <= dy <= dx,
            derror2 == 2 * dy,
            e == end_x as int,
            f == end_y as int,
            s <= x as int <= e,
            dx > 0 ==> {
                let k = x as int - s;
                let c = spec_line_sec(k, dy as int, dx as int);
                &&& error2 == 2 * k * dy - 2 * c * dx
                &&& -dx < error2 <= dx
                &&& 0 <= c <= dy
                &&& y as int == (if f >= t {
                    t + c
                } else {
                    t - c
                })
            },
            forall|u: int, v: int|
                img0.in_bounds(u, v) ==> #[trigger] img.pixel_at(u, v) == (
                if spec_line_covers_upto(x0, y0, x1, y1, x as int - s, u, v) {
                    color
                } else {
                    img0.pixel_at(u, v)
                }),
        decreases e - x,
    {
        let ghost k: int = x as int - s;
        let ghost pix: (int, int) = spec_line_pixel(x0, y0, x1, y1, k);
        let ghost img_prev: Image = *img;
        let ghost prev_pixels: Seq<Rgb> = img.pixels@;
        let wrote: bool;
        if transposed {
            wrote = img.set(y, x, color);
            proof {
                assert(pix == (y as int, x as int));
            }
        } else {
            wrote = img.set(x, y, color);
            proof {
                assert(pix == (x as int, y as int));
            }
        }
        proof {
            let w = img.width as int;
            assert(wrote ==> img.pixels@ == prev_pixels.update(
                crate::image::pix_index(w, pix.0, pix.1),
                color,
            ));
            assert(!wrote ==> img.pixels@ == prev_pixels);
            assert(wrote == img0.in_bounds(pix.0, pix.1));
            assert forall|u: int, v: int| img0.in_bounds(u, v) implies #[trigger] img.pixel_at(
                u,
                v,
            ) == (if spec_line_covers_upto(x0, y0, x1, y1, k + 1, u, v) {
                color
            } else {
                img0.pixel_at(u, v)
            }) by {
                crate::image::lemma_pix_index_in_range(w, img.height as int, u, v);
                if (u, v) == pix {
                    assert(spec_line_pixel(x0, y0, x1, y1, k) == (u, v));
                    assert(spec_line_covers_upto(x0, y0, x1, y1, k + 1, u, v));
                } else {
                    let j = crate::image::pix_index(w, u, v);
                    assert(0 <= j < prev_pixels.len());
                    if img.in_bounds(pix.0, pix.1) {
                        crate::image::lemma_pix_index_in_range(
                            w,
                            img.height as int,
                            pix.0,
                            pix.1,
                        );
                        lemma_pix_index_injective(w, pix.0, pix.1, u, v);
                        assert(j != crate::image::pix_index(w, pix.0, pix.1));
                        let i = crate::image::pix_index(w, pix.0, pix.1);
                        assert(img.pixels@ == prev_pixels.update(i, color));
                        assert(prev_pixels.update(i, color)[j] == prev_pixels[j]);
                        assert(img.pixels@[j] == prev_pixels[j]);
                    } else {
                        assert(!wrote);
                        assert(img.pixels@[j] == prev_pixels[j]);
                    }
                    assert(img.pixel_at(u, v) == prev_pixels[crate::image::pix_index(w, u, v)]);
                    assert(img_prev.pixel_at(u, v) == prev_pixels[crate::image::pix_index(
                        w,
                        u,
                        v,
                    )]);
                    assert(img_prev.pixel_at(u, v) == (if spec_line_covers_upto(
                        x0,
                        y0,
                        x1,
                        y1,
                        k,
                        u,
                        v,
                    ) {
                        color
                    } else {
                        img0.pixel_at(u, v)
                    }));
                    assert(spec_line_covers_upto(x0, y0, x1, y1, k + 1, u, v)
                        == spec_line_covers_upto(x0, y0, x1, y1, k, u, v)) by {
                        if spec_line_covers_upto(x0, y0, x1, y1, k + 1, u, v) {
                            let j = choose|j: int|
                                0 <= j < k + 1 && #[trigger] spec_line_pixel(
                                    x0,
                                    y0,
                                    x1,
                                    y1,
                                    j,
                                ) == (u, v);
                            assert(j < k);
                            assert(spec_line_covers_upto(x0, y0, x1, y1, k, u, v));
                        }
                    }
                }
            }
        }
        error2 = error2 + derror2;
        let ghost c_old: int = spec_line_sec(k, dy as int, dx as int);
        if error2 > dx {
            proof {
                assert(error2 - 2 * dx == 2 * (k + 1) * dy - 2 * (c_old + 1) * dx && -dx < error2
                    - 2 * dx <= dx) by (nonlinear_arith)
                    requires
                        dx > 0,
                        0 <= dy <= dx,
                        error2 == (2 * k * dy - 2 * c_old * dx) + 2 * dy,
                        -dx < 2 * k * dy - 2 * c_old * dx <= dx,
                        error2 > dx,
                ;
                lemma_line_sec_step(k + 1, dy as int, dx as int, c_old + 1, error2 - 2 * dx);
                lemma_line_sec_bounds(k + 1, dy as int, dx as int);
                assert(dy >= 1) by (nonlinear_arith)
                    requires
                        error2 == (2 * k * dy - 2 * c_old * dx) + 2 * dy,
                        -dx < 2 * k * dy - 2 * c_old * dx <= dx,
                        error2 > dx,
                        dx > 0,
                        dy >= 0,
                ;
            }
            if end_y > start_y {
                proof {
                    assert(y < end_y);
                }
                y = y + 1;
            } else {
                proof {
                    assert(y >= 1);
                }
                y = y - 1;
            }
            error2 = error2 - dx * 2;
        } else {
            proof {
                assert(error2 == 2 * (k + 1) * dy - 2 * c_old * dx && -dx < error2 <= dx)
                    by (nonlinear_arith)
                    requires
                        dx > 0,
                        0 <= dy <= dx,
                        error2 == (2 * k * dy - 2 * c_old * dx) + 2 * dy,
                        -dx < 2 * k * dy - 2 * c_old * dx <= dx,
                        !(error2 > dx),
                ;
                lemma_line_sec_step(k + 1, dy as int, dx as int, c_old, error2 as int);
                lemma_line_sec_bounds(k + 1, dy as int, dx as int);
            }
        }
        x = x + 1;
    }
    proof {
        assert(x as int - s == spec_line_len(x0, y0, x1, y1));
    }
}

} // verus!
