use vstd::prelude::*;

use crate::color::Rgba;

verus! {

/// Row-major cell index of a pixel.
pub open spec fn cell(w: int, x: int, y: int) -> int {
    y * w + x
}

pub proof fn lemma_cell_bound(w: int, h: int, x: int, y: int)
    by (nonlinear_arith)
    requires
        0 <= x < w,
        0 <= y < h,
    ensures
        0 <= cell(w, x, y) < w * h,
{
}

pub proof fn lemma_cell_injective(w: int, x1: int, y1: int, x2: int, y2: int)
    by (nonlinear_arith)
    requires
        0 <= x1 < w,
        0 <= x2 < w,
        0 <= y1,
        0 <= y2,
        (x1, y1) != (x2, y2),
    ensures
        cell(w, x1, y1) != cell(w, x2, y2),
{
}

/// One channel of source over destination, rounded to nearest.
pub open spec fn blend_channel(d: u8, s: u8, sa: u8) -> u8 {
    (((s * sa + d * (255 - sa)) + 127) / 255) as u8
}

/// The alpha left by compositing source over destination.
pub open spec fn blend_alpha(d: u8, sa: u8) -> u8 {
    (((sa * 255 + d * (255 - sa)) + 127) / 255) as u8
}

/// Source-over compositing of one pixel: an opaque source replaces, a fully
/// transparent one leaves the destination, anything between is blended.
pub open spec fn spec_blend(d: Rgba, s: Rgba) -> Rgba {
    if s.a == 255 {
        s
    } else if s.a == 0 {
        d
    } else {
        Rgba {
            r: blend_channel(d.r, s.r, s.a),
            g: blend_channel(d.g, s.g, s.a),
            b: blend_channel(d.b, s.b, s.a),
            a: blend_alpha(d.a, s.a),
        }
    }
}

/// Compute source-over compositing of one pixel.
pub fn blend(d: Rgba, s: Rgba) -> (r: Rgba)
    ensures
        r == spec_blend(d, s),
{
    if s.a == 255 {
        s
    } else if s.a == 0 {
        d
    } else {
        let sa: u32 = s.a as u32;
        let na: u32 = 255 - sa;
        proof {
            assert(s.r * sa + d.r * na <= 255 * 255) by (nonlinear_arith)
                requires
                    s.r <= 255 && d.r <= 255 && sa <= 255 && na == 255 - sa,
            ;
            assert(s.g * sa + d.g * na <= 255 * 255) by (nonlinear_arith)
                requires
                    s.g <= 255 && d.g <= 255 && sa <= 255 && na == 255 - sa,
            ;
            assert(s.b * sa + d.b * na <= 255 * 255) by (nonlinear_arith)
                requires
                    s.b <= 255 && d.b <= 255 && sa <= 255 && na == 255 - sa,
            ;
            assert(sa * 255 + d.a * na <= 255 * 255) by (nonlinear_arith)
                requires
                    d.a <= 255 && sa <= 255 && na == 255 - sa,
            ;
        }
        let r = ((s.r as u32 * sa + d.r as u32 * na + 127) / 255) as u8;
        let g = ((s.g as u32 * sa + d.g as u32 * na + 127) / 255) as u8;
        let b = ((s.b as u32 * sa + d.b as u32 * na + 127) / 255) as u8;
        let a = ((sa * 255 + d.a as u32 * na + 127) / 255) as u8;
        Rgba { r, g, b, a }
    }
}

/// A 2D RGBA8 pixel buffer, four bytes per pixel, rows top to bottom.
pub struct Canvas {
    pub width: u32,
    pub height: u32,
    pub data: Vec<u8>,
}

impl Canvas {
    /// The buffer holds exactly four bytes for every pixel.
    pub open spec fn wf(self) -> bool {
        self.data@.len() == 4 * self.width * self.height
    }

    pub open spec fn pix(self, x: int, y: int) -> int {
        4 * cell(self.width as int, x, y)
    }

    pub open spec fn pixel(self, x: int, y: int) -> Rgba {
        Rgba {
            r: self.data@[self.pix(x, y)],
            g: self.data@[self.pix(x, y) + 1],
            b: self.data@[self.pix(x, y) + 2],
            a: self.data@[self.pix(x, y) + 3],
        }
    }

    pub open spec fn in_bounds(self, x: int, y: int) -> bool {
        0 <= x < self.width && 0 <= y < self.height
    }

    pub open spec fn same_dims(self, o: Canvas) -> bool {
        self.width == o.width && self.height == o.height
    }

    /// Allocate a canvas of the given size, every pixel the fill color.
    #[verifier::loop_isolation(false)]
    pub fn new(width: u32, height: u32, fill: Rgba) -> (c: Canvas)
        requires
            4 * width * height <= usize::MAX,
        ensures
            c.wf(),
            c.width == width,
            c.height == height,
            forall|x: int, y: int| c.in_bounds(x, y) ==> #[trigger] c.pixel(x, y) == fill,
    {
        proof {
            lemma_size_bounds(width as int, height as int);
        }
        let cells: usize = (width as usize) * (height as usize);
        let data: Vec<u8> = vec![0u8; 4 * cells];
        let mut c = Canvas { width, height, data };
        c.fill_rect(0, 0, width, height, fill);
        c
    }

    /// Read one pixel.
    pub fn get_pixel(&self, x: u32, y: u32) -> (r: Rgba)
        requires
            self.wf(),
            self.in_bounds(x as int, y as int),
        ensures
            r == self.pixel(x as int, y as int),
    {
        let len = self.data.len();
        proof {
            lemma_cell_bound(self.width as int, self.height as int, x as int, y as int);
            lemma_pix_in_data(
                self.width as int,
                self.height as int,
                x as int,
                y as int,
                len as int,
            );
        }
        let i: usize = 4 * ((y as usize) * (self.width as usize) + (x as usize));
        Rgba { r: self.data[i], g: self.data[i + 1], b: self.data[i + 2], a: self.data[i + 3] }
    }

    /// Write one pixel; every other pixel keeps its value.
    pub fn set_pixel(&mut self, x: u32, y: u32, c: Rgba)
        requires
            old(self).wf(),
            old(self).in_bounds(x as int, y as int),
        ensures
            final(self).wf(),
            final(self).same_dims(*old(self)),
            final(self).pixel(x as int, y as int) == c,
            forall|i: int, j: int|
                old(self).in_bounds(i, j) && (i, j) != (x as int, y as int)
                    ==> #[trigger] final(self).pixel(i, j) == old(self).pixel(i, j),
    {
        let len = self.data.len();
        proof {
            lemma_cell_bound(self.width as int, self.height as int, x as int, y as int);
            lemma_pix_in_data(
                self.width as int,
                self.height as int,
                x as int,
                y as int,
                len as int,
            );
        }
        let ghost w = self.width as int;
        let ghost h = self.height as int;
        let i: usize = 4 * ((y as usize) * (self.width as usize) + (x as usize));
        self.data.set(i, c.r);
        self.data.set(i + 1, c.g);
        self.data.set(i + 2, c.b);
        self.data.set(i + 3, c.a);
        proof {
            assert forall|i2: int, j2: int|
                old(self).in_bounds(i2, j2) && (i2, j2) != (x as int, y as int)
                implies #[trigger] self.pixel(i2, j2) == old(self).pixel(i2, j2) by {
                lemma_cell_bound(w, h, i2, j2);
                lemma_cell_injective(w, i2, j2, x as int, y as int);
                lemma_pix_in_data(w, h, i2, j2, len as int);
            }
        }
    }

    /// Is (x, y) inside the rectangle from (x0, y0) of size rw x rh?
    pub open spec fn in_rect(x: int, y: int, x0: int, y0: int, rw: int, rh: int) -> bool {
        x0 <= x < x0 + rw && y0 <= y < y0 + rh
    }

    /// Fill a rectangle, clipped to the canvas, replacing the pixels in it.
    #[verifier::loop_isolation(false)]
    pub fn fill_rect(&mut self, x0: u32, y0: u32, rw: u32, rh: u32, c: Rgba)
        requires
            old(self).wf(),
        ensures
            final(self).wf(),
            final(self).same_dims(*old(self)),
            forall|x: int, y: int|
                old(self).in_bounds(x, y) ==> #[trigger] final(self).pixel(x, y) == (if Self::in_rect(
                    x,
                    y,
                    x0 as int,
                    y0 as int,
                    rw as int,
                    rh as int,
                ) {
                    c
                } else {
                    old(self).pixel(x, y)
                }),
    {
        let xe: u64 = if (x0 as u64) + (rw as u64) <= (self.width as u64) {
            (x0 as u64) + (rw as u64)
        } else {
            self.width as u64
        };
        let ye: u64 = if (y0 as u64) + (rh as u64) <= (self.height as u64) {
            (y0 as u64) + (rh as u64)
        } else {
            self.height as u64
        };
        let mut y: u64 = y0 as u64;
        while y < ye
            invariant
                self.wf(),
                self.same_dims(*old(self)),
                y0 <= y,
                ye <= self.height,
                xe <= self.width,
                xe <= x0 as u64 + rw as u64,
                ye <= y0 as u64 + rh as u64,
                xe >= self.width || xe == x0 as u64 + rw as u64,
                ye >= self.height || ye == y0 as u64 + rh as u64,
                forall|i: int, j: int|
                    old(self).in_bounds(i, j) ==> #[trigger] self.pixel(i, j) == (if Self::in_rect(
                        i,
                        j,
                        x0 as int,
                        y0 as int,
                        rw as int,
                        rh as int,
                    ) && j < y {
                        c
                    } else {
                        old(self).pixel(i, j)
                    }),
            decreases ye - y,
        {
            let mut x: u64 = x0 as u64;
            while x < xe
                invariant
                    self.wf(),
                    self.same_dims(*old(self)),
                    x0 <= x,
                    y0 <= y < ye,
                    ye <= self.height,
                    xe <= self.width,
                    xe <= x0 as u64 + rw as u64,
                    ye <= y0 as u64 + rh as u64,
                    xe >= self.width || xe == x0 as u64 + rw as u64,
                    forall|i: int, j: int|
                        old(self).in_bounds(i, j) ==> #[trigger] self.pixel(i, j) == (
                        if Self::in_rect(i, j, x0 as int, y0 as int, rw as int, rh as int) && (j < y
                            || (j == y && i < x)) {
                            c
                        } else {
                            old(self).pixel(i, j)
                        }),
                decreases xe - x,
            {
                self.set_pixel(x as u32, y as u32, c);
                x += 1;
            }
            y += 1;
        }
    }

    /// Composite a rectangle of one color over the canvas, clipped to it.
    #[verifier::loop_isolation(false)]
    pub fn fill_rect_blend(&mut self, x0: u32, y0: u32, rw: u32, rh: u32, c: Rgba)
        requires
            old(self).wf(),
        ensures
            final(self).wf(),
            final(self).same_dims(*old(self)),
            forall|x: int, y: int|
                old(self).in_bounds(x, y) ==> #[trigger] final(self).pixel(x, y) == (if Self::in_rect(
                    x,
                    y,
                    x0 as int,
                    y0 as int,
                    rw as int,
                    rh as int,
                ) {
                    spec_blend(old(self).pixel(x, y), c)
                } else {
                    old(self).pixel(x, y)
                }),
    {
        let xe: u64 = if (x0 as u64) + (rw as u64) <= (self.width as u64) {
            (x0 as u64) + (rw as u64)
        } else {
            self.width as u64
        };
        let ye: u64 = if (y0 as u64) + (rh as u64) <= (self.height as u64) {
            (y0 as u64) + (rh as u64)
        } else {
            self.height as u64
        };
        let mut y: u64 = y0 as u64;
        while y < ye
            invariant
                self.wf(),
                self.same_dims(*old(self)),
                y0 <= y,
                ye <= self.height,
                xe <= self.width,
                xe <= x0 as u64 + rw as u64,
                ye <= y0 as u64 + rh as u64,
                xe >= self.width || xe == x0 as u64 + rw as u64,
                ye >= self.height || ye == y0 as u64 + rh as u64,
                forall|i: int, j: int|
                    old(self).in_bounds(i, j) ==> #[trigger] self.pixel(i, j) == (if Self::in_rect(
                        i,
                        j,
                        x0 as int,
                        y0 as int,
                        rw as int,
                        rh as int,
                    ) && j < y {
                        spec_blend(old(self).pixel(i, j), c)
                    } else {
                        old(self).pixel(i, j)
                    }),
            decreases ye - y,
        {
            let mut x: u64 = x0 as u64;
            while x < xe
                invariant
                    self.wf(),
                    self.same_dims(*old(self)),
                    x0 <= x,
                    y0 <= y < ye,
                    ye <= self.height,
                    xe <= self.width,
                    xe <= x0 as u64 + rw as u64,
                    ye <= y0 as u64 + rh as u64,
                    xe >= self.width || xe == x0 as u64 + rw as u64,
                    forall|i: int, j: int|
                        old(self).in_bounds(i, j) ==> #[trigger] self.pixel(i, j) == (
                        if Self::in_rect(i, j, x0 as int, y0 as int, rw as int, rh as int) && (j < y
                            || (j == y && i < x)) {
                            spec_blend(old(self).pixel(i, j), c)
                        } else {
                            old(self).pixel(i, j)
                        }),
                decreases xe - x,
            {
                let d = self.get_pixel(x as u32, y as u32);
                self.set_pixel(x as u32, y as u32, blend(d, c));
                x += 1;
            }
            y += 1;
        }
    }

    /// Composite another canvas over this one, its top-left at (ox, oy).
    #[verifier::loop_isolation(false)]
    pub fn paste_blend(&mut self, src: &Canvas, ox: u32, oy: u32)
        requires
            old(self).wf(),
            src.wf(),
            ox + src.width <= old(self).width,
            oy + src.height <= old(self).height,
        ensures
            final(self).wf(),
            final(self).same_dims(*old(self)),
            forall|x: int, y: int|
                old(self).in_bounds(x, y) ==> #[trigger] final(self).pixel(x, y) == (if Self::in_rect(
                    x,
                    y,
                    ox as int,
                    oy as int,
                    src.width as int,
                    src.height as int,
                ) {
                    spec_blend(old(self).pixel(x, y), src.pixel(x - ox, y - oy))
                } else {
                    old(self).pixel(x, y)
                }),
    {
        let mut y: u32 = 0;
        while y < src.height
            invariant
                self.wf(),
                self.same_dims(*old(self)),
                src.wf(),
                ox + src.width <= self.width,
                oy + src.height <= self.height,
                y <= src.height,
                forall|i: int, j: int|
                    old(self).in_bounds(i, j) ==> #[trigger] self.pixel(i, j) == (if Self::in_rect(
                        i,
                        j,
                        ox as int,
                        oy as int,
                        src.width as int,
                        src.height as int,
                    ) && j < oy + y {
                        spec_blend(old(self).pixel(i, j), src.pixel(i - ox, j - oy))
                    } else {
                        old(self).pixel(i, j)
                    }),
            decreases src.height - y,
        {
            let mut x: u32 = 0;
            while x < src.width
                invariant
                    self.wf(),
                    self.same_dims(*old(self)),
                    src.wf(),
                    ox + src.width <= self.width,
                    oy + src.height <= self.height,
                    y < src.height,
                    x <= src.width,
                    forall|i: int, j: int|
                        old(self).in_bounds(i, j) ==> #[trigger] self.pixel(i, j) == (
                        if Self::in_rect(
                            i,
                            j,
                            ox as int,
                            oy as int,
                            src.width as int,
                            src.height as int,
                        ) && (j < oy + y || (j == oy + y && i < ox + x)) {
                            spec_blend(old(self).pixel(i, j), src.pixel(i - ox, j - oy))
                        } else {
                            old(self).pixel(i, j)
                        }),
                decreases src.width - x,
            {
                let s = src.get_pixel(x, y);
                let d = self.get_pixel(ox + x, oy + y);
                self.set_pixel(ox + x, oy + y, blend(d, s));
                x += 1;
            }
            y += 1;
        }
    }

    /// Is (x, y) within distance `rad` of the center (cx, cy)?
    pub open spec fn in_disc(x: int, y: int, cx: int, cy: int, rad: int) -> bool {
        (x - cx) * (x - cx) + (y - cy) * (y - cy) <= rad * rad
    }

    /// Paint a filled disc, clipped to the canvas.
    #[verifier::loop_isolation(false)]
    pub fn draw_disc(&mut self, cx: u32, cy: u32, rad: u32, c: Rgba)
        requires
            old(self).wf(),
            rad <= 65535,
            rad <= cx,
            rad <= cy,
            cx + rad < old(self).width,
            cy + rad < old(self).height,
        ensures
            final(self).wf(),
            final(self).same_dims(*old(self)),
            forall|x: int, y: int|
                old(self).in_bounds(x, y) ==> #[trigger] final(self).pixel(x, y) == (if Self::in_disc(
                    x,
                    y,
                    cx as int,
                    cy as int,
                    rad as int,
                ) {
                    c
                } else {
                    old(self).pixel(x, y)
                }),
    {
        let y0: u32 = cy - rad;
        let ye: u32 = cy + rad + 1;
        let x0: u32 = cx - rad;
        let xe: u32 = cx + rad + 1;
        proof {
            assert forall|i: int, j: int|
                Self::in_disc(i, j, cx as int, cy as int, rad as int) && old(self).in_bounds(i, j)
                implies x0 <= i < xe && y0 <= j < ye by {
                lemma_disc_in_box(i, j, cx as int, cy as int, rad as int);
            }
        }
        let mut y: u32 = y0;
        while y < ye
            invariant
                self.wf(),
                self.same_dims(*old(self)),
                y0 <= y,
                ye == cy + rad + 1 <= self.height,
                xe == cx + rad + 1 <= self.width,
                x0 == cx - rad,
                y0 == cy - rad,
                rad <= cx,
                rad <= cy,
                forall|i: int, j: int|
                    old(self).in_bounds(i, j) ==> #[trigger] self.pixel(i, j) == (if Self::in_disc(
                        i,
                        j,
                        cx as int,
                        cy as int,
                        rad as int,
                    ) && j < y {
                        c
                    } else {
                        old(self).pixel(i, j)
                    }),
            decreases ye - y,
        {
            let mut x: u32 = x0;
            while x < xe
                invariant
                    self.wf(),
                    self.same_dims(*old(self)),
                    x0 <= x,
                    y0 <= y < ye,
                    ye == cy + rad + 1 <= self.height,
                    xe == cx + rad + 1 <= self.width,
                    x0 == cx - rad,
                    y0 == cy - rad,
                    rad <= cx,
                    rad <= cy,
                    forall|i: int, j: int|
                        old(self).in_bounds(i, j) ==> #[trigger] self.pixel(i, j) == (
                        if Self::in_disc(i, j, cx as int, cy as int, rad as int) && (j < y || (j == y
                            && i < x)) {
                            c
                        } else {
                            old(self).pixel(i, j)
                        }),
                decreases xe - x,
            {
                let dx: u64 = if x <= cx {
                    (cx - x) as u64
                } else {
                    (x - cx) as u64
                };
                let dy: u64 = if y <= cy {
                    (cy - y) as u64
                } else {
                    (y - cy) as u64
                };
                proof {
                    assert(dx <= 65535 && dy <= 65535);
                    assert(dx * dx <= 65535 * 65535 && dy * dy <= 65535 * 65535 && (rad as u64)
                        * (rad as u64) <= 65535 * 65535) by (nonlinear_arith)
                        requires
                            dx <= 65535 && dy <= 65535 && rad <= 65535,
                    ;
                }
                if dx * dx + dy * dy <= (rad as u64) * (rad as u64) {
                    proof {
                        lemma_abs_square(x as int, cx as int, dx as int);
                        lemma_abs_square(y as int, cy as int, dy as int);
                    }
                    self.set_pixel(x, y, c);
                } else {
                    proof {
                        lemma_abs_square(x as int, cx as int, dx as int);
                        lemma_abs_square(y as int, cy as int, dy as int);
                    }
                }
                x += 1;
            }
            y += 1;
        }
        proof {
            assert forall|i: int, j: int| old(self).in_bounds(i, j) implies #[trigger] self.pixel(
                i,
                j,
            ) == (if Self::in_disc(i, j, cx as int, cy as int, rad as int) {
                c
            } else {
                old(self).pixel(i, j)
            }) by {
                if Self::in_disc(i, j, cx as int, cy as int, rad as int) {
                    lemma_disc_in_box(i, j, cx as int, cy as int, rad as int);
                }
            }
        }
    }
}

/// Within the byte budget of a well-formed canvas every pixel's bytes fit.
pub proof fn lemma_pix_in_data(w: int, h: int, x: int, y: int, len: int)
    by (nonlinear_arith)
    requires
        0 <= x < w,
        0 <= y < h,
        len == 4 * w * h,
    ensures
        0 <= y * w + x,
        y * w + x < w * h,
        4 * (y * w + x) + 3 < len,
        y * w <= len,
        y * w + x <= len,
        4 * (y * w + x) <= len,
{
}

/// The cell count and byte count of a canvas fit beside each other.
pub proof fn lemma_size_bounds(w: int, h: int)
    by (nonlinear_arith)
    requires
        w >= 0,
        h >= 0,
        4 * w * h <= usize::MAX,
    ensures
        w * h <= usize::MAX,
        4 * (w * h) == 4 * w * h,
        w * h >= 0,
{
}

/// Fully transparent black: what the corner mask leaves outside the curve.
pub open spec fn spec_transparent() -> Rgba {
    Rgba { r: 0, g: 0, b: 0, a: 0 }
}

impl Canvas {
    /// Replace one corner square by a quarter disc of the sampled foreground,
    /// transparent outside the curve.
    #[verifier::loop_isolation(false)]
    pub fn mask_corner(&mut self, x0: u32, y0: u32, cx: u32, cy: u32, rad: u32, fg: Rgba)
        requires
            old(self).wf(),
            rad <= 65535,
            x0 + rad <= old(self).width,
            y0 + rad <= old(self).height,
            x0 + rad <= 2000000,
            y0 + rad <= 2000000,
            cx <= 2000000,
            cy <= 2000000,
        ensures
            final(self).wf(),
            final(self).same_dims(*old(self)),
            forall|x: int, y: int|
                old(self).in_bounds(x, y) ==> #[trigger] final(self).pixel(x, y) == (
                if Self::in_rect(x, y, x0 as int, y0 as int, rad as int, rad as int) {
                    if Self::in_disc(x, y, cx as int, cy as int, rad as int) {
                        fg
                    } else {
                        spec_transparent()
                    }
                } else {
                    old(self).pixel(x, y)
                }),
    {
        let mut y: u32 = y0;
        while y < y0 + rad
            invariant
                self.wf(),
                self.same_dims(*old(self)),
                y0 <= y <= y0 + rad,
                forall|i: int, j: int|
                    old(self).in_bounds(i, j) ==> #[trigger] self.pixel(i, j) == (if Self::in_rect(
                        i,
                        j,
                        x0 as int,
                        y0 as int,
                        rad as int,
                        rad as int,
                    ) && j < y {
                        if Self::in_disc(i, j, cx as int, cy as int, rad as int) {
                            fg
                        } else {
                            spec_transparent()
                        }
                    } else {
                        old(self).pixel(i, j)
                    }),
            decreases y0 + rad - y,
        {
            let mut x: u32 = x0;
            while x < x0 + rad
                invariant
                    self.wf(),
                    self.same_dims(*old(self)),
                    x0 <= x <= x0 + rad,
                    y0 <= y < y0 + rad,
                    forall|i: int, j: int|
                        old(self).in_bounds(i, j) ==> #[trigger] self.pixel(i, j) == (
                        if Self::in_rect(i, j, x0 as int, y0 as int, rad as int, rad as int) && (j
                            < y || (j == y && i < x)) {
                            if Self::in_disc(i, j, cx as int, cy as int, rad as int) {
                                fg
                            } else {
                                spec_transparent()
                            }
                        } else {
                            old(self).pixel(i, j)
                        }),
                decreases x0 + rad - x,
            {
                let dx: u64 = if x <= cx {
                    (cx - x) as u64
                } else {
                    (x - cx) as u64
                };
                let dy: u64 = if y <= cy {
                    (cy - y) as u64
                } else {
                    (y - cy) as u64
                };
                proof {
                    assert(dx * dx <= 2000000 * 2000000 && dy * dy <= 2000000 * 2000000 && (
                    rad as u64) * (rad as u64) <= 65535 * 65535) by (nonlinear_arith)
                        requires
                            dx <= 2000000 && dy <= 2000000 && rad <= 65535,
                    ;
                    lemma_abs_square(x as int, cx as int, dx as int);
                    lemma_abs_square(y as int, cy as int, dy as int);
                }
                if dx * dx + dy * dy <= (rad as u64) * (rad as u64) {
                    self.set_pixel(x, y, fg);
                } else {
                    self.set_pixel(x, y, Rgba { r: 0, g: 0, b: 0, a: 0 });
                }
                x += 1;
            }
            y += 1;
        }
    }

    /// Lower edge of a blur window centred at `pos`.
    pub open spec fn spec_win_lo(pos: int, radius: int) -> int {
        if pos > radius {
            pos - radius
        } else {
            0
        }
    }

    /// Upper edge (exclusive) of a blur window centred at `pos`.
    pub open spec fn spec_win_hi(pos: int, radius: int, limit: int) -> int {
        if pos + radius + 1 <= limit {
            pos + radius + 1
        } else {
            limit
        }
    }

    /// Channel sums over a window of the source, along a row or a column.
    pub open spec fn spec_win_sums(
        c: Canvas,
        horizontal: bool,
        x: int,
        y: int,
        lo: int,
        hi: int,
    ) -> (int, int, int, int)
        decreases hi - lo,
    {
        if lo >= hi {
            (0, 0, 0, 0)
        } else {
            let p = if horizontal {
                c.pixel(hi - 1, y)
            } else {
                c.pixel(x, hi - 1)
            };
            let rest = Self::spec_win_sums(c, horizontal, x, y, lo, hi - 1);
            (rest.0 + p.r, rest.1 + p.g, rest.2 + p.b, rest.3 + p.a)
        }
    }

    /// One pixel of one blur pass: the mean of its clipped row or column
    /// window in the source.
    pub open spec fn spec_pass_pixel(
        src: Canvas,
        radius: int,
        horizontal: bool,
        x: int,
        y: int,
    ) -> Rgba {
        let pos = if horizontal {
            x
        } else {
            y
        };
        let limit = if horizontal {
            src.width as int
        } else {
            src.height as int
        };
        let lo = Self::spec_win_lo(pos, radius);
        let hi = Self::spec_win_hi(pos, radius, limit);
        let s = Self::spec_win_sums(src, horizontal, x, y, lo, hi);
        let n = hi - lo;
        Rgba { r: (s.0 / n) as u8, g: (s.1 / n) as u8, b: (s.2 / n) as u8, a: (s.3 / n) as u8 }
    }

    /// One box-blur pass: each pixel of the result is the mean of its window
    /// of the source, along rows or along columns.
    #[verifier::loop_isolation(false)]
    fn blur_pass(src: &Canvas, radius: u32, horizontal: bool) -> (r: Canvas)
        requires
            src.wf(),
        ensures
            r.wf(),
            r.width == src.width,
            r.height == src.height,
            forall|x: int, y: int|
                src.in_bounds(x, y) ==> #[trigger] r.pixel(x, y) == Self::spec_pass_pixel(
                    *src,
                    radius as int,
                    horizontal,
                    x,
                    y,
                ),
    {
        let w = src.width;
        let h = src.height;
        let len = src.data.len();
        let mut out = Canvas::new(w, h, Rgba { r: 0, g: 0, b: 0, a: 0 });
        let mut y: u32 = 0;
        while y < h
            invariant
                out.wf(),
                out.width == w,
                out.height == h,
                y <= h,
                forall|px: int, py: int|
                    src.in_bounds(px, py) && py < y ==> #[trigger] out.pixel(px, py)
                        == Self::spec_pass_pixel(*src, radius as int, horizontal, px, py),
            decreases h - y,
        {
            let mut x: u32 = 0;
            while x < w
                invariant
                    out.wf(),
                    out.width == w,
                    out.height == h,
                    y < h,
                    x <= w,
                    forall|px: int, py: int|
                        src.in_bounds(px, py) && (py < y || (py == y && px < x))
                            ==> #[trigger] out.pixel(px, py) == Self::spec_pass_pixel(
                            *src,
                            radius as int,
                            horizontal,
                            px,
                            py,
                        ),
                decreases w - x,
            {
                let (pos, limit): (u32, u32) = if horizontal {
                    (x, w)
                } else {
                    (y, h)
                };
                let lo: u32 = if pos > radius {
                    pos - radius
                } else {
                    0
                };
                let hi: u32 = if (pos as u64) + (radius as u64) + 1 <= (limit as u64) {
                    pos + radius + 1
                } else {
                    limit
                };
                let mut sr: u64 = 0;
                let mut sg: u64 = 0;
                let mut sb: u64 = 0;
                let mut sa: u64 = 0;
                let mut k: u32 = lo;
                while k < hi
                    invariant
                        lo <= k <= hi,
                        hi <= limit,
                        src.wf(),
                        y < h,
                        x < w,
                        (pos, limit) == if horizontal {
                            (x, w)
                        } else {
                            (y, h)
                        },
                        w == src.width,
                        h == src.height,
                        sr as int == Self::spec_win_sums(
                            *src,
                            horizontal,
                            x as int,
                            y as int,
                            lo as int,
                            k as int,
                        ).0,
                        sg as int == Self::spec_win_sums(
                            *src,
                            horizontal,
                            x as int,
                            y as int,
                            lo as int,
                            k as int,
                        ).1,
                        sb as int == Self::spec_win_sums(
                            *src,
                            horizontal,
                            x as int,
                            y as int,
                            lo as int,
                            k as int,
                        ).2,
                        sa as int == Self::spec_win_sums(
                            *src,
                            horizontal,
                            x as int,
                            y as int,
                            lo as int,
                            k as int,
                        ).3,
                        sr <= 255 * (k - lo),
                        sg <= 255 * (k - lo),
                        sb <= 255 * (k - lo),
                        sa <= 255 * (k - lo),
                    decreases hi - k,
                {
                    let p = if horizontal {
                        src.get_pixel(k, y)
                    } else {
                        src.get_pixel(x, k)
                    };
                    sr += p.r as u64;
                    sg += p.g as u64;
                    sb += p.b as u64;
                    sa += p.a as u64;
                    k += 1;
                }
                proof {
                    assert(lo <= pos < hi);
                }
                let n: u64 = (hi - lo) as u64;
                proof {
                    assert(sr / n <= 255 && sg / n <= 255 && sb / n <= 255 && sa / n
                        <= 255) by (nonlinear_arith)
                        requires
                            n > 0,
                            sr <= 255 * n,
                            sg <= 255 * n,
                            sb <= 255 * n,
                            sa <= 255 * n,
                    ;
                }
                let c = Rgba {
                    r: (sr / n) as u8,
                    g: (sg / n) as u8,
                    b: (sb / n) as u8,
                    a: (sa / n) as u8,
                };
                out.set_pixel(x, y, c);
                x += 1;
            }
            y += 1;
        }
        out
    }

    /// Blur the canvas: a horizontal then a vertical windowed-mean pass, the
    /// separable box approximation of a blur of the given radius. The result
    /// is exactly the second pass applied to the first.
    pub fn box_blur(&mut self, radius: u32)
        requires
            old(self).wf(),
        ensures
            final(self).wf(),
            final(self).same_dims(*old(self)),
            exists|mid: Canvas|
                #![trigger mid.wf()]
                mid.wf() && mid.width == old(self).width && mid.height == old(self).height && (
                forall|x: int, y: int|
                    old(self).in_bounds(x, y) ==> #[trigger] mid.pixel(x, y)
                        == Self::spec_pass_pixel(*old(self), radius as int, true, x, y)) && (
                forall|x: int, y: int|
                    old(self).in_bounds(x, y) ==> #[trigger] final(self).pixel(x, y)
                        == Self::spec_pass_pixel(mid, radius as int, false, x, y)),
    {
        let mid = Self::blur_pass(self, radius, true);
        let out = Self::blur_pass(&mid, radius, false);
        *self = out;
        proof {
            assert(mid.wf());
        }
    }
}

/// |x - c| squared is (x - c) squared.
pub proof fn lemma_abs_square(x: int, c: int, d: int)
    by (nonlinear_arith)
    requires
        d == if x <= c {
            c - x
        } else {
            x - c
        },
    ensures
        d * d == (x - c) * (x - c),
{
}

/// A point of a disc lies inside the disc's bounding box.
pub proof fn lemma_disc_in_box(x: int, y: int, cx: int, cy: int, rad: int)
    by (nonlinear_arith)
    requires
        rad >= 0,
        (x - cx) * (x - cx) + (y - cy) * (y - cy) <= rad * rad,
    ensures
        cx - rad <= x <= cx + rad,
        cy - rad <= y <= cy + rad,
{
}

} // verus!
