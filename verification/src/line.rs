//! Seeding helper: rasterises a straight line of grains onto the grid.
//!
//! The walk is the classic integer error-accumulator rasteriser: it steps
//! along the dominant axis, carrying a scaled error term that decides when
//! the other coordinate moves. Each visited cell that lies on the grid gains
//! ten grains; cells off the grid are skipped.

use vstd::prelude::*;
use crate::Field;
use crate::step::lemma_coords_round_trip;

verus! {

/// `g` with ten grains added at `(x, y)`, when that cell lies on a
/// `w`-by-`h` grid; unchanged otherwise.
pub open spec fn bump(g: Seq<u32>, w: int, h: int, x: int, y: int) -> Seq<u32> {
    let i = y * w + x;
    if 0 <= x < w && 0 <= y < h && 0 <= i < g.len() {
        g.update(i, (g[i] + 10) as u32)
    } else {
        g
    }
}

/// The rest of an x-dominant walk: from column `x` (exclusive bound `xe`),
/// at row `y` with error term `px`, each step advances one column, moves the
/// row by `ystep` whenever the error is non-negative, and draws the cell at
/// the advanced position.
pub open spec fn raster_x(
    g: Seq<u32>,
    w: int,
    h: int,
    x: int,
    y: int,
    xe: int,
    px: int,
    dx1: int,
    dy1: int,
    ystep: int,
) -> Seq<u32>
    decreases xe - x,
{
    if x >= xe {
        g
    } else {
        let y2 = if px < 0 {
            y
        } else {
            y + ystep
        };
        let px2 = if px < 0 {
            px + 2 * dy1
        } else {
            px + 2 * (dy1 - dx1)
        };
        raster_x(bump(g, w, h, x, y2), w, h, x + 1, y2, xe, px2, dx1, dy1, ystep)
    }
}

/// The rest of a y-dominant walk, the mirror of [`raster_x`]: the row
/// advances each step and the column moves by `xstep` whenever the error is
/// positive.
pub open spec fn raster_y(
    g: Seq<u32>,
    w: int,
    h: int,
    x: int,
    y: int,
    ye: int,
    py: int,
    dx1: int,
    dy1: int,
    xstep: int,
) -> Seq<u32>
    decreases ye - y,
{
    if y >= ye {
        g
    } else {
        let x2 = if py <= 0 {
            x
        } else {
            x + xstep
        };
        let py2 = if py <= 0 {
            py + 2 * dx1
        } else {
            py + 2 * (dx1 - dy1)
        };
        raster_y(bump(g, w, h, x2, y), w, h, x2, y + 1, ye, py2, dx1, dy1, xstep)
    }
}

/// The grid after drawing the line from `(x1, y1)` to `(x2, y2)`: the first
/// endpoint of the walk is drawn, then the walk covers one coordinate step
/// per cell along the dominant axis.
pub open spec fn line_drawn(
    g: Seq<u32>,
    w: int,
    h: int,
    x1: int,
    y1: int,
    x2: int,
    y2: int,
) -> Seq<u32> {
    let dx = x2 - x1;
    let dy = y2 - y1;
    let dx1 = if dx >= 0 {
        dx
    } else {
        -dx
    };
    let dy1 = if dy >= 0 {
        dy
    } else {
        -dy
    };
    if dy1 <= dx1 {
        let xs = if dx >= 0 {
            x1
        } else {
            x2
        };
        let ys = if dx >= 0 {
            y1
        } else {
            y2
        };
        let xe = if dx >= 0 {
            x2
        } else {
            x1
        };
        let ystep: int = if (dx < 0 && dy < 0) || (dx > 0 && dy > 0) {
            1
        } else {
            -1
        };
        raster_x(bump(g, w, h, xs, ys), w, h, xs, ys, xe, 2 * dy1 - dx1, dx1, dy1, ystep)
    } else {
        let xs = if dy >= 0 {
            x1
        } else {
            x2
        };
        let ys = if dy >= 0 {
            y1
        } else {
            y2
        };
        let ye = if dy >= 0 {
            y2
        } else {
            y1
        };
        let xstep: int = if (dx < 0 && dy < 0) || (dx > 0 && dy > 0) {
            1
        } else {
            -1
        };
        raster_y(bump(g, w, h, xs, ys), w, h, xs, ys, ye, 2 * dx1 - dy1, dx1, dy1, xstep)
    }
}

impl Field<u32> {
    /// Adds ten grains at `(x, y)` when that cell lies on the grid; does
    /// nothing otherwise.
    fn draw_cell(&mut self, x: i32, y: i32)
        requires
            old(self).wf(),
            0 <= x < old(self).width && 0 <= y < old(self).height ==> old(self).data@[(y as int)
                * (old(self).width as int) + (x as int)] <= u32::MAX - 10,
        ensures
            final(self).wf(),
            final(self).width == old(self).width,
            final(self).height == old(self).height,
            final(self).old_data@ == old(self).old_data@,
            final(self).data@ == bump(
                old(self).data@,
                old(self).width as int,
                old(self).height as int,
                x as int,
                y as int,
            ),
    {
        let increment: u32 = 10;
        let ghost wi = self.width as int;
        let ghost hi = self.height as int;
        if x >= 0 && y >= 0 {
            let xu = x as usize;
            let yu = y as usize;
            match self.from_coords_checked(xu, yu) {
                Some(i) => {
                    proof {
                        crate::lemma_row_major_index_bound(wi, hi, xu as int, yu as int);
                    }
                    let v = self.data[i];
                    self.data[i] = v + increment;
                },
                None => {},
            }
        }
    }

    /// Draws a straight line of grains from `(x1, y1)` to `(x2, y2)`: every
    /// cell the rasteriser visits and that lies on the grid gains ten
    /// grains. Cells past the grid edge are skipped.
    pub fn put_line(&mut self, x1: usize, y1: usize, x2: usize, y2: usize)
        requires
            old(self).wf(),
            x1 <= 16383,
            y1 <= 16383,
            x2 <= 16383,
            y2 <= 16383,
            forall|i: int|
                0 <= i < old(self).data@.len() ==> #[trigger] old(self).data@[i] <= u32::MAX - 20,
        ensures
            final(self).wf(),
            final(self).width == old(self).width,
            final(self).height == old(self).height,
            final(self).old_data@ == old(self).old_data@,
            final(self).data@ == line_drawn(
                old(self).data@,
                old(self).width as int,
                old(self).height as int,
                x1 as int,
                y1 as int,
                x2 as int,
                y2 as int,
            ),
    {
        let w = self.width;
        let h = self.height;
        let ghost g0 = self.data@;
        let ghost wi = w as int;
        let ghost hi = h as int;
        let ghost target = line_drawn(
            g0,
            wi,
            hi,
            x1 as int,
            y1 as int,
            x2 as int,
            y2 as int,
        );
        // Line deltas, exact in 32-bit arithmetic for the admitted inputs.
        let dx = x2 as i32 - x1 as i32;
        let dy = y2 as i32 - y1 as i32;
        // Positive copies of the deltas.
        let dx1 = if dx >= 0 {
            dx
        } else {
            -dx
        };
        let dy1 = if dy >= 0 {
            dy
        } else {
            -dy
        };
        // Error accumulators for both axes.
        let mut px = 2 * dy1 - dx1;
        let mut py = 2 * dx1 - dy1;
        let up = (dx < 0 && dy < 0) || (dx > 0 && dy > 0);
        let ghost cstep: int = if up {
            1
        } else {
            -1
        };
        if dy1 <= dx1 {
            // The line is x-axis dominant; walk left to right.
            let (xs, ys, xe) = if dx >= 0 {
                (x1, y1, x2)
            } else {
                (x2, y2, x1)
            };
            proof {
                if xs < w && ys < h {
                    crate::lemma_row_major_index_bound(wi, hi, xs as int, ys as int);
                }
            }
            self.draw_cell(xs as i32, ys as i32);
            let ghost g1 = self.data@;
            proof {
                lemma_bump_bounds(g0, wi, hi, xs as int, ys as int);
            }
            let mut ix = xs;
            let mut y = ys as i32;
            while ix < xe
                invariant
                    self.wf(),
                    self.width == w,
                    self.height == h,
                    self.old_data@ == old(self).old_data@,
                    wi == w as int,
                    hi == h as int,
                    self.data@.len() == g1.len(),
                    g1.len() == g0.len(),
                    dx1 == if x2 >= x1 {
                        x2 - x1
                    } else {
                        x1 - x2
                    },
                    dy1 <= dx1,
                    dx1 <= 16383,
                    dy1 >= 0,
                    cstep == if up {
                        1int
                    } else {
                        -1int
                    },
                    xs <= ix <= xe,
                    xe <= 16383,
                    xe - xs == dx1,
                    ys <= 16383,
                    ys as int - (ix - xs) <= y as int <= ys as int + (ix - xs),
                    2 * dy1 - 2 * dx1 <= px <= 2 * dy1,
                    forall|j: int| 0 <= j < g1.len() ==> #[trigger] g1[j] <= u32::MAX - 10,
                    forall|j: int|
                        0 <= j < g1.len() && j % wi >= ix as int ==> #[trigger] self.data@[j]
                            == g1[j],
                    forall|j: int|
                        0 <= j < g1.len() ==> #[trigger] self.data@[j] <= g1[j] + 10,
                    raster_x(
                        self.data@,
                        wi,
                        hi,
                        ix as int,
                        y as int,
                        xe as int,
                        px as int,
                        dx1 as int,
                        dy1 as int,
                        cstep,
                    ) == target,
                decreases xe - ix,
            {
                let ghost pre = self.data@;
                let ghost y_at = y as int;
                let ghost px_at = px as int;
                if px < 0 {
                    px = px + 2 * dy1;
                } else {
                    if up {
                        y = y + 1;
                    } else {
                        y = y - 1;
                    }
                    px = px + 2 * (dy1 - dx1);
                }
                proof {
                    if 0 <= y as int && (y as int) < hi && (ix as int) < wi {
                        lemma_coords_round_trip(wi, ix as int, y as int);
                        crate::lemma_row_major_index_bound(wi, hi, ix as int, y as int);
                    }
                }
                self.draw_cell(ix as i32, y);
                proof {
                    lemma_bump_keeps_column(pre, wi, hi, ix as int, y as int, g1);
                    assert(raster_x(
                        pre,
                        wi,
                        hi,
                        ix as int,
                        y_at,
                        xe as int,
                        px_at,
                        dx1 as int,
                        dy1 as int,
                        cstep,
                    ) == raster_x(
                        self.data@,
                        wi,
                        hi,
                        ix as int + 1,
                        y as int,
                        xe as int,
                        px as int,
                        dx1 as int,
                        dy1 as int,
                        cstep,
                    ));
                }
                ix += 1;
            }
        } else {
            // The line is y-axis dominant; walk bottom to top.
            let (xs, ys, ye) = if dy >= 0 {
                (x1, y1, y2)
            } else {
                (x2, y2, y1)
            };
            proof {
                if xs < w && ys < h {
                    crate::lemma_row_major_index_bound(wi, hi, xs as int, ys as int);
                }
            }
            self.draw_cell(xs as i32, ys as i32);
            let ghost g1 = self.data@;
            proof {
                lemma_bump_bounds(g0, wi, hi, xs as int, ys as int);
            }
            let mut iy = ys;
            let mut x = xs as i32;
            while iy < ye
                invariant
                    self.wf(),
                    self.width == w,
                    self.height == h,
                    self.old_data@ == old(self).old_data@,
                    wi == w as int,
                    hi == h as int,
                    self.data@.len() == g1.len(),
                    g1.len() == g0.len(),
                    dy1 == if y2 >= y1 {
                        y2 - y1
                    } else {
                        y1 - y2
                    },
                    dx1 <= dy1,
                    dy1 <= 16383,
                    dx1 >= 0,
                    cstep == if up {
                        1int
                    } else {
                        -1int
                    },
                    ys <= iy <= ye,
                    ye <= 16383,
                    ye - ys == dy1,
                    xs <= 16383,
                    xs as int - (iy - ys) <= x as int <= xs as int + (iy - ys),
                    2 * dx1 - 2 * dy1 <= py <= 2 * dx1,
                    forall|j: int| 0 <= j < g1.len() ==> #[trigger] g1[j] <= u32::MAX - 10,
                    forall|j: int|
                        0 <= j < g1.len() && j / wi >= iy as int ==> #[trigger] self.data@[j]
                            == g1[j],
                    forall|j: int|
                        0 <= j < g1.len() ==> #[trigger] self.data@[j] <= g1[j] + 10,
                    raster_y(
                        self.data@,
                        wi,
                        hi,
                        x as int,
                        iy as int,
                        ye as int,
                        py as int,
                        dx1 as int,
                        dy1 as int,
                        cstep,
                    ) == target,
                decreases ye - iy,
            {
                let ghost pre = self.data@;
                let ghost x_at = x as int;
                let ghost py_at = py as int;
                if py <= 0 {
                    py = py + 2 * dx1;
                } else {
                    if up {
                        x = x + 1;
                    } else {
                        x = x - 1;
                    }
                    py = py + 2 * (dx1 - dy1);
                }
                proof {
                    if 0 <= x as int && (x as int) < wi && (iy as int) < hi {
                        lemma_coords_round_trip(wi, x as int, iy as int);
                        crate::lemma_row_major_index_bound(wi, hi, x as int, iy as int);
                    }
                }
                self.draw_cell(x, iy as i32);
                proof {
                    lemma_bump_keeps_row(pre, wi, hi, x as int, iy as int, g1);
                    assert(raster_y(
                        pre,
                        wi,
                        hi,
                        x_at,
                        iy as int,
                        ye as int,
                        py_at,
                        dx1 as int,
                        dy1 as int,
                        cstep,
                    ) == raster_y(
                        self.data@,
                        wi,
                        hi,
                        x as int,
                        iy as int + 1,
                        ye as int,
                        py as int,
                        dx1 as int,
                        dy1 as int,
                        cstep,
                    ));
                }
                iy += 1;
            }
        }
    }
}

/// The first drawn pixel raises one cell by ten, so every count stays at
/// least ten below the maximum when it started at least twenty below it.
proof fn lemma_bump_bounds(g: Seq<u32>, w: int, h: int, x: int, y: int)
    requires
        forall|i: int| 0 <= i < g.len() ==> #[trigger] g[i] <= u32::MAX - 20,
    ensures
        bump(g, w, h, x, y).len() == g.len(),
        forall|i: int| 0 <= i < g.len() ==> #[trigger] bump(g, w, h, x, y)[i] <= u32::MAX - 10,
{
}

/// Drawing at column `x` touches no cell of another column, and raises the
/// drawn cell by at most ten over the sweep's base state.
proof fn lemma_bump_keeps_column(g: Seq<u32>, w: int, h: int, x: int, y: int, base: Seq<u32>)
    requires
        g.len() == base.len(),
        forall|j: int| 0 <= j < base.len() && j % w >= x ==> #[trigger] g[j] == base[j],
        forall|j: int| 0 <= j < base.len() ==> #[trigger] g[j] <= base[j] + 10,
    ensures
        bump(g, w, h, x, y).len() == g.len(),
        forall|j: int|
            0 <= j < base.len() && j % w >= x + 1 ==> #[trigger] bump(g, w, h, x, y)[j] == base[j],
        forall|j: int| 0 <= j < base.len() ==> #[trigger] bump(g, w, h, x, y)[j] <= base[j] + 10,
{
    if 0 <= x < w && 0 <= y < h && 0 <= y * w + x < g.len() {
        lemma_coords_round_trip(w, x, y);
    }
}

/// Drawing at row `y` touches no cell of another row, and raises the drawn
/// cell by at most ten over the sweep's base state.
proof fn lemma_bump_keeps_row(g: Seq<u32>, w: int, h: int, x: int, y: int, base: Seq<u32>)
    requires
        g.len() == base.len(),
        forall|j: int| 0 <= j < base.len() && j / w >= y ==> #[trigger] g[j] == base[j],
        forall|j: int| 0 <= j < base.len() ==> #[trigger] g[j] <= base[j] + 10,
    ensures
        bump(g, w, h, x, y).len() == g.len(),
        forall|j: int|
            0 <= j < base.len() && j / w >= y + 1 ==> #[trigger] bump(g, w, h, x, y)[j] == base[j],
        forall|j: int| 0 <= j < base.len() ==> #[trigger] bump(g, w, h, x, y)[j] <= base[j] + 10,
{
    if 0 <= x < w && 0 <= y < h && 0 <= y * w + x < g.len() {
        lemma_coords_round_trip(w, x, y);
    }
}

} // verus!
