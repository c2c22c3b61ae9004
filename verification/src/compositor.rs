use vstd::prelude::*;
use vstd::arithmetic::div_mod::lemma_fundamental_div_mod;
use vstd::arithmetic::mul::lemma_mul_inequality;

verus! {

/// Largest accepted viewport dimension, in pixels.
pub const MAX_DIM: u64 = 1048576;

/// A pixel dimension clamped into the valid range; an externally supplied
/// zero becomes the minimum instead of an error.
pub open spec fn clamp_dim(x: u64) -> u64 {
    if x < 1 {
        1
    } else if x > MAX_DIM {
        MAX_DIM
    } else {
        x
    }
}

/// The viewport the compositor fills: its pixel size and the height of one
/// text line.
#[derive(Clone, Copy, PartialEq, Eq, Structural, Debug)]
pub struct Viewport {
    pub width: u64,
    pub height: u64,
    pub line_height: u64,
}

impl Viewport {
    pub open spec fn valid(self) -> bool {
        &&& 1 <= self.width <= MAX_DIM
        &&& 1 <= self.height <= MAX_DIM
        &&& 1 <= self.line_height <= MAX_DIM
    }

    pub open spec fn spec_clamped(self) -> Viewport {
        Viewport {
            width: clamp_dim(self.width),
            height: clamp_dim(self.height),
            line_height: clamp_dim(self.line_height),
        }
    }

    /// The same viewport with every dimension forced into the valid range.
    pub fn clamped(self) -> (r: Viewport)
        ensures
            r == self.spec_clamped(),
            r.valid(),
    {
        Viewport {
            width: clamp_exec(self.width),
            height: clamp_exec(self.height),
            line_height: clamp_exec(self.line_height),
        }
    }
}

fn clamp_exec(x: u64) -> (r: u64)
    ensures
        r == clamp_dim(x),
{
    if x < 1 {
        1
    } else if x > MAX_DIM {
        MAX_DIM
    } else {
        x
    }
}

/// One positioned line of text: `y` is the pixel row of its top edge,
/// negative while the overlay is partly off screen.
pub struct Row {
    pub y: i64,
    pub text: String,
}

/// What one render tick hands the presentation layer: the clamped viewport
/// size and the rows to draw, top to bottom.
pub struct Frame {
    pub width: u64,
    pub height: u64,
    pub rows: Vec<Row>,
}

/// Pixel row of line `i`'s top edge: the overlay's bottom edge sits
/// `vertical_offset` pixels below the viewport top, lines stacked upward
/// from it, oldest first at the top.
pub open spec fn spec_row_y(off: int, height: int, lh: int, i: int) -> int {
    off - height + i * lh
}

/// Whether line `i` intersects the viewport at all; lines beyond it are not
/// rasterized.
pub open spec fn spec_row_visible(off: int, height: int, lh: int, i: int) -> bool {
    let y = spec_row_y(off, height, lh, i);
    0 - lh < y && y < height
}

/// The rows of the first `n` snapshot lines that the viewport shows, in
/// order, each with its pixel position.
pub open spec fn spec_rows(
    lines: Seq<Seq<char>>,
    off: int,
    height: int,
    lh: int,
    n: int,
) -> Seq<(int, Seq<char>)>
    decreases n,
{
    if n <= 0 {
        Seq::empty()
    } else {
        let prev = spec_rows(lines, off, height, lh, n - 1);
        if spec_row_visible(off, height, lh, n - 1) {
            prev.push((spec_row_y(off, height, lh, n - 1), lines[n - 1]))
        } else {
            prev
        }
    }
}

proof fn lemma_rows_stable(lines: Seq<Seq<char>>, off: int, height: int, lh: int, i: int, n: int)
    requires
        0 <= i <= n,
        forall|j: int| i <= j < n ==> !spec_row_visible(off, height, lh, j),
    ensures
        spec_rows(lines, off, height, lh, n) == spec_rows(lines, off, height, lh, i),
    decreases n - i,
{
    if i < n {
        lemma_rows_stable(lines, off, height, lh, i, n - 1);
    }
}

/// Project a scrollback snapshot onto the viewport: each line that
/// intersects it becomes a positioned row, offset vertically by the
/// animator's current offset. A read-only projection: the snapshot is
/// untouched, and lines outside the viewport are not rasterized.
pub fn render(snapshot: &Vec<String>, vertical_offset: u64, viewport: Viewport) -> (frame: Frame)
    ensures
        frame.width == viewport.spec_clamped().width,
        frame.height == viewport.spec_clamped().height,
        frame.rows@.map_values(|r: Row| (r.y as int, r.text@)) == spec_rows(
            snapshot@.map_values(|s: String| s@),
            if vertical_offset <= viewport.spec_clamped().height {
                vertical_offset as int
            } else {
                viewport.spec_clamped().height as int
            },
            viewport.spec_clamped().height as int,
            viewport.spec_clamped().line_height as int,
            snapshot@.len() as int,
        ),
{
    let v = viewport.clamped();
    let off: u64 = if vertical_offset <= v.height {
        vertical_offset
    } else {
        v.height
    };
    let h = v.height;
    let lh = v.line_height;
    let limit: u64 = 2 * h / lh + 2;
    let ghost lines = snapshot@.map_values(|s: String| s@);
    let mut rows: Vec<Row> = Vec::new();
    let mut i: usize = 0;
    proof {
        assert(rows@.map_values(|r: Row| (r.y as int, r.text@)) =~= spec_rows(
            lines,
            off as int,
            h as int,
            lh as int,
            0,
        ));
    }
    while i < snapshot.len() && (i as u64) < limit
        invariant
            i <= snapshot@.len(),
            lines == snapshot@.map_values(|s: String| s@),
            v.valid(),
            h == v.height,
            lh == v.line_height,
            off <= h,
            limit as int == 2 * (h as int) / (lh as int) + 2,
            rows@.map_values(|r: Row| (r.y as int, r.text@)) == spec_rows(
                lines,
                off as int,
                h as int,
                lh as int,
                i as int,
            ),
        decreases snapshot@.len() - i,
    {
        proof {
            lemma_fundamental_div_mod(2 * h as int, lh as int);
            assert((i as int) * (lh as int) <= (2 * (h as int) / (lh as int) + 1) * (lh as int))
                by {
                lemma_mul_inequality(i as int, 2 * (h as int) / (lh as int) + 1, lh as int);
            }
            assert((2 * h as int / lh as int + 1) * lh as int <= 2 * h + lh) by (nonlinear_arith)
                requires
                    lh >= 1,
                    h >= 1,
                    2 * h as int == (lh as int) * (2 * h as int / lh as int) + 2 * h as int % lh as int,
                    2 * h as int % lh as int >= 0;
        }
        let prod: u64 = (i as u64) * lh;
        let y: i64 = off as i64 - h as i64 + prod as i64;
        if 0 - (lh as i64) < y && y < h as i64 {
            let text = snapshot[i].clone();
            proof {
                assert(text@ == lines[i as int]);
            }
            rows.push(Row { y, text });
            proof {
                assert(rows@.map_values(|r: Row| (r.y as int, r.text@)) =~= spec_rows(
                    lines,
                    off as int,
                    h as int,
                    lh as int,
                    i + 1,
                ));
            }
        } else {
            proof {
                assert(rows@.map_values(|r: Row| (r.y as int, r.text@)) =~= spec_rows(
                    lines,
                    off as int,
                    h as int,
                    lh as int,
                    i + 1,
                ));
            }
        }
        i = i + 1;
    }
    proof {
        if i < snapshot@.len() {
            assert(i as u64 >= limit);
            assert forall|j: int| i <= j < snapshot@.len() implies !spec_row_visible(
                off as int,
                h as int,
                lh as int,
                j,
            ) by {
                lemma_fundamental_div_mod(2 * h as int, lh as int);
                lemma_mul_inequality(limit as int, j, lh as int);
                assert((limit as int) * (lh as int) >= 2 * h + 2) by (nonlinear_arith)
                    requires
                        lh >= 1,
                        h >= 1,
                        limit as int == 2 * h as int / lh as int + 2,
                        2 * h as int == (lh as int) * (2 * h as int / lh as int) + 2 * h as int
                            % lh as int,
                        (2 * h as int % lh as int) < lh;
            }
            lemma_rows_stable(lines, off as int, h as int, lh as int, i as int, snapshot@.len() as int);
        }
    }
    Frame { width: v.width, height: v.height, rows }
}

} // verus!
