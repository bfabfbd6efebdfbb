//! Drawing into a software frame buffer of `0x00RRGGBB` pixels, row after
//! row (`buf_width` pixels per row): filled rectangles, alpha-blended glyph
//! coverage, the cursor's outline and a pane's border. Pixels outside the
//! `buf_width` x `buf_height` frame are left alone.

use vstd::prelude::*;

verus! {

/// Index of pixel (`px`, `py`) in a frame `bw` pixels wide.
pub open spec fn flat(bw: int, px: int, py: int) -> int {
    py * bw + px
}

/// Different pixels of a row-major frame have different indices, all
/// below the frame's size.
pub proof fn lemma_flat(bw: int, bh: int, px1: int, py1: int, px2: int, py2: int)
    requires
        0 <= px1 < bw,
        0 <= py1 < bh,
        0 <= px2 < bw,
        0 <= py2 < bh,
    ensures
        flat(bw, px1, py1) == flat(bw, px2, py2) <==> (px1 == px2 && py1 == py2),
        0 <= flat(bw, px1, py1) < bw * bh,
{
    assert(flat(bw, px1, py1) == flat(bw, px2, py2) ==> (px1 == px2 && py1 == py2)) by (nonlinear_arith)
        requires
            0 <= px1 < bw,
            0 <= px2 < bw,
            0 <= py1,
            0 <= py2,
    {
        if py1 < py2 {
            assert(py1 * bw + bw <= py2 * bw);
        } else if py2 < py1 {
            assert(py2 * bw + bw <= py1 * bw);
        }
    }
    assert(0 <= flat(bw, px1, py1) < bw * bh) by (nonlinear_arith)
        requires
            0 <= px1 < bw,
            0 <= py1 < bh,
    {
        assert(py1 * bw + bw <= bh * bw);
    }
}

/// The frame after painting the pixels `painted` selects with `color`;
/// everything else, and whatever lies beyond the frame, unchanged.
pub open spec fn painted_with(
    new: Seq<u32>,
    old: Seq<u32>,
    bw: int,
    bh: int,
    painted: spec_fn(int, int) -> bool,
    color: u32,
) -> bool {
    &&& new.len() == old.len()
    &&& forall|px: int, py: int|
        0 <= px < bw && 0 <= py < bh ==> #[trigger] new[flat(bw, px, py)] == if painted(px, py) {
            color
        } else {
            old[flat(bw, px, py)]
        }
    &&& forall|i: int| bw * bh <= i < old.len() ==> new[i] == old[i]
}

/// `(x, y)` lies in the `w` x `h` rectangle at (`rx`, `ry`).
pub open spec fn in_rect(rx: int, ry: int, w: int, h: int, x: int, y: int) -> bool {
    rx <= x < rx + w && ry <= y < ry + h
}

/// Paints pixel (`px`, `py`) of the frame.
fn put(buf: &mut [u32], bw: usize, bh: usize, px: usize, py: usize, color: u32)
    requires
        bw * bh <= old(buf)@.len(),
        px < bw,
        py < bh,
    ensures
        final(buf)@ == old(buf)@.update(flat(bw as int, px as int, py as int), color),
        forall|qx: int, qy: int|
            0 <= qx < bw && 0 <= qy < bh && (qx != px || qy != py) ==> #[trigger] flat(bw as int, qx, qy)
                != flat(bw as int, px as int, py as int),
        forall|qx: int, qy: int| 0 <= qx < bw && 0 <= qy < bh ==> #[trigger] flat(bw as int, qx, qy) < bw * bh,
{
    proof {
        lemma_flat(bw as int, bh as int, px as int, py as int, px as int, py as int);
        assert forall|qx: int, qy: int| 0 <= qx < bw && 0 <= qy < bh implies #[trigger] flat(bw as int, qx, qy)
            < bw * bh && ((qx != px || qy != py) ==> flat(bw as int, qx, qy) != flat(
            bw as int,
            px as int,
            py as int,
        )) by {
            lemma_flat(bw as int, bh as int, qx, qy, px as int, py as int);
        }
        assert(py * bw + px < bw * bh);
    }
    let n = buf.len();
    assert(py * bw <= py * bw + px < n);
    let i = py * bw + px;
    buf[i] = color;
}

/// Fills the `w` x `h` rectangle at (`x`, `y`) with `color`.
pub fn fill_rect(buf: &mut [u32], buf_width: usize, buf_height: usize, x: usize, y: usize, w: usize, h: usize, color: u32)
    requires
        buf_width * buf_height <= old(buf)@.len(),
        w > 0 && h > 0 ==> x + w - 1 <= usize::MAX && y + h - 1 <= usize::MAX,
    ensures
        painted_with(
            final(buf)@,
            old(buf)@,
            buf_width as int,
            buf_height as int,
            |px: int, py: int| in_rect(x as int, y as int, w as int, h as int, px, py),
            color,
        ),
{
    let ghost (bw, bh) = (buf_width as int, buf_height as int);
    let mut dy: usize = 0;
    while dy < h
        invariant
            dy <= h,
            w > 0 && h > 0 ==> x + w - 1 <= usize::MAX && y + h - 1 <= usize::MAX,
            bw == buf_width && bh == buf_height,
            buf_width * buf_height <= old(buf)@.len(),
            painted_with(buf@, old(buf)@, bw, bh, |px: int, py: int| in_rect(x as int, y as int, w as int, dy as int, px, py), color),
        decreases h - dy,
    {
        let mut dx: usize = 0;
        while dx < w
            invariant
                dy < h,
                dx <= w,
                w > 0 && h > 0 ==> x + w - 1 <= usize::MAX && y + h - 1 <= usize::MAX,
                bw == buf_width && bh == buf_height,
                buf_width * buf_height <= old(buf)@.len(),
                painted_with(
                    buf@,
                    old(buf)@,
                    bw,
                    bh,
                    |px: int, py: int| in_rect(x as int, y as int, w as int, dy as int, px, py) || (py == y + dy && x <= px < x + dx),
                    color,
                ),
            decreases w - dx,
        {
            let px = x + dx;
            let py = y + dy;
            if px < buf_width && py < buf_height {
                put(buf, buf_width, buf_height, px, py, color);
            }
            dx = dx + 1;
        }
        dy = dy + 1;
        proof {
            assert forall|px: int, py: int| #![auto] in_rect(x as int, y as int, w as int, (dy - 1) as int, px, py) || (py == y + dy - 1 && x <= px < x + w)
                <==> in_rect(x as int, y as int, w as int, dy as int, px, py) by {}
        }
    }
}

/// Paints the outline (first and last rows and columns) of the `w` x `h`
/// rectangle at (`x`, `y`) with `color`.
pub fn draw_cursor_outline(buf: &mut [u32], buf_width: usize, buf_height: usize, x: usize, y: usize, w: usize, h: usize, color: u32)
    requires
        buf_width * buf_height <= old(buf)@.len(),
        w > 0 && h > 0 ==> x + w - 1 <= usize::MAX && y + h - 1 <= usize::MAX,
    ensures
        painted_with(
            final(buf)@,
            old(buf)@,
            buf_width as int,
            buf_height as int,
            |px: int, py: int| in_rect(x as int, y as int, w as int, h as int, px, py) && (py == y || py == y + h - 1 || px == x || px == x + w - 1),
            color,
        ),
{
    let ghost (bw, bh) = (buf_width as int, buf_height as int);
    let mut dy: usize = 0;
    while dy < h
        invariant
            dy <= h,
            w > 0 && h > 0 ==> x + w - 1 <= usize::MAX && y + h - 1 <= usize::MAX,
            bw == buf_width && bh == buf_height,
            buf_width * buf_height <= old(buf)@.len(),
            painted_with(buf@, old(buf)@, bw, bh, |px: int, py: int| in_rect(x as int, y as int, w as int, dy as int, px, py) && (py == y || py == y + h - 1 || px == x || px == x + w - 1), color),
        decreases h - dy,
    {
        let mut dx: usize = 0;
        while dx < w
            invariant
                dy < h,
                dx <= w,
                w > 0 && h > 0 ==> x + w - 1 <= usize::MAX && y + h - 1 <= usize::MAX,
                bw == buf_width && bh == buf_height,
                buf_width * buf_height <= old(buf)@.len(),
                painted_with(
                    buf@,
                    old(buf)@,
                    bw,
                    bh,
                    |px: int, py: int| (in_rect(x as int, y as int, w as int, dy as int, px, py) || (py == y + dy && x <= px < x + dx)) && (py == y || py == y + h - 1 || px == x || px == x + w - 1),
                    color,
                ),
            decreases w - dx,
        {
            let px = x + dx;
            let py = y + dy;
            if px < buf_width && py < buf_height && (dy == 0 || dy == h - 1 || dx == 0 || dx == w - 1) {
                put(buf, buf_width, buf_height, px, py, color);
            }
            dx = dx + 1;
        }
        dy = dy + 1;
    }
}

/// A pane's rectangle in pixels.
#[derive(Debug, Clone, Copy, PartialEq, Eq, Structural)]
pub struct PixelRect {
    pub x: usize,
    pub y: usize,
    pub width: usize,
    pub height: usize,
}

/// The pixels of a pane's border: the rows just above and just below it
/// and the columns just left and just right of it, corners excluded.
pub open spec fn on_border(r: PixelRect, px: int, py: int) -> bool {
    ||| (r.x <= px < r.x + r.width && ((r.y > 0 && py == r.y - 1) || py == r.y + r.height))
    ||| (r.y <= py < r.y + r.height && ((r.x > 0 && px == r.x - 1) || px == r.x + r.width))
}

/// Paints the border around pane rectangle `r` with `color`.
pub fn draw_pane_border(buf: &mut [u32], buf_width: usize, buf_height: usize, r: &PixelRect, color: u32)
    requires
        buf_width * buf_height <= old(buf)@.len(),
        r.x + r.width <= usize::MAX,
        r.y + r.height <= usize::MAX,
    ensures
        painted_with(final(buf)@, old(buf)@, buf_width as int, buf_height as int, |px: int, py: int| on_border(*r, px, py), color),
{
    let ghost (bw, bh) = (buf_width as int, buf_height as int);
    let ghost rr = *r;
    let mut dx: usize = 0;
    while dx < r.width
        invariant
            dx <= rr.width,
            *r == rr,
            rr.x + rr.width <= usize::MAX,
            rr.y + rr.height <= usize::MAX,
            bw == buf_width && bh == buf_height,
            buf_width * buf_height <= old(buf)@.len(),
            painted_with(buf@, old(buf)@, bw, bh, |px: int, py: int| rr.x <= px < rr.x + dx && ((rr.y > 0 && py == rr.y - 1) || py == rr.y + rr.height), color),
        decreases rr.width - dx,
    {
        let px = r.x + dx;
        if px < buf_width {
            if r.y > 0 && r.y - 1 < buf_height {
                put(buf, buf_width, buf_height, px, r.y - 1, color);
            }
            let bot = r.y + r.height;
            if bot < buf_height {
                put(buf, buf_width, buf_height, px, bot, color);
            }
        }
        dx = dx + 1;
    }
    let mut dy: usize = 0;
    while dy < r.height
        invariant
            dy <= rr.height,
            *r == rr,
            rr.x + rr.width <= usize::MAX,
            rr.y + rr.height <= usize::MAX,
            bw == buf_width && bh == buf_height,
            buf_width * buf_height <= old(buf)@.len(),
            painted_with(buf@, old(buf)@, bw, bh, |px: int, py: int| (rr.x <= px < rr.x + rr.width && ((rr.y > 0 && py == rr.y - 1) || py == rr.y + rr.height)) || (rr.y <= py < rr.y + dy && ((rr.x > 0 && px == rr.x - 1) || px == rr.x + rr.width)), color),
        decreases rr.height - dy,
    {
        let py = r.y + dy;
        if py < buf_height {
            if r.x > 0 && r.x - 1 < buf_width {
                put(buf, buf_width, buf_height, r.x - 1, py, color);
            }
            let right = r.x + r.width;
            if right < buf_width {
                put(buf, buf_width, buf_height, right, py, color);
            }
        }
        dy = dy + 1;
    }
}

/// One channel blended: `(f * a + e * (255 - a)) / 255`.
pub open spec fn blend_channel(f: u32, e: u32, a: u32) -> u32 {
    ((f * a + e * (255 - a)) / 255) as u32
}

/// Pixel `existing` with colour (`fr`, `fg`, `fb`) laid over it at opacity
/// `alpha` (0 to 255).
pub open spec fn blend_pixel(existing: u32, fr: u8, fg: u8, fb: u8, alpha: u8) -> u32 {
    let a = alpha as u32;
    let nr = blend_channel(fr as u32, (existing >> 16u32) & 0xFF, a);
    let ng = blend_channel(fg as u32, (existing >> 8u32) & 0xFF, a);
    let nb = blend_channel(fb as u32, existing & 0xFF, a);
    (nr << 16u32) | (ng << 8u32) | nb
}

/// The frame after blending the pixels `blended` selects: everything else,
/// and whatever lies beyond the frame, unchanged.
pub open spec fn blended_with(
    new: Seq<u32>,
    old: Seq<u32>,
    bw: int,
    bh: int,
    blended: spec_fn(int, int) -> bool,
    fr: u8,
    fg: u8,
    fb: u8,
    alpha: u8,
) -> bool {
    &&& new.len() == old.len()
    &&& forall|px: int, py: int|
        0 <= px < bw && 0 <= py < bh ==> #[trigger] new[flat(bw, px, py)] == if blended(px, py) {
            blend_pixel(old[flat(bw, px, py)], fr, fg, fb, alpha)
        } else {
            old[flat(bw, px, py)]
        }
    &&& forall|i: int| bw * bh <= i < old.len() ==> new[i] == old[i]
}

fn blend_one(existing: u32, fr: u8, fg: u8, fb: u8, alpha: u8) -> (r: u32)
    ensures
        r == blend_pixel(existing, fr, fg, fb, alpha),
{
    let a = alpha as u32;
    let er = (existing >> 16) & 0xFF;
    let eg = (existing >> 8) & 0xFF;
    let eb = existing & 0xFF;
    assert(er <= 255 && eg <= 255 && eb <= 255) by (bit_vector)
        requires
            er == (existing >> 16u32) & 0xFF,
            eg == (existing >> 8u32) & 0xFF,
            eb == existing & 0xFF,
    ;
    assert((fr as u32) * a <= 255 * 255 && er * (255 - a) <= 255 * 255 && (fg as u32) * a <= 255 * 255
        && eg * (255 - a) <= 255 * 255 && (fb as u32) * a <= 255 * 255 && eb * (255 - a) <= 255 * 255)
        by (nonlinear_arith)
        requires
            a <= 255,
            fr <= 255,
            fg <= 255,
            fb <= 255,
            er <= 255,
            eg <= 255,
            eb <= 255,
    ;
    let nr = ((fr as u32) * a + er * (255 - a)) / 255;
    let ng = ((fg as u32) * a + eg * (255 - a)) / 255;
    let nb = ((fb as u32) * a + eb * (255 - a)) / 255;
    (nr << 16) | (ng << 8) | nb
}

/// Lays colour (`fr`, `fg`, `fb`) at opacity `alpha` over the `w` x `h`
/// rectangle at (`x`, `y`), which may start left of or above the frame.
pub fn blend_rect(
    buf: &mut [u32],
    buf_width: usize,
    buf_height: usize,
    x: i32,
    y: i32,
    w: usize,
    h: usize,
    fr: u8,
    fg: u8,
    fb: u8,
    alpha: u8,
)
    requires
        buf_width * buf_height <= old(buf)@.len(),
        buf_width <= i32::MAX,
        buf_height <= i32::MAX,
        w > 0 && h > 0 ==> w - 1 <= i32::MAX && h - 1 <= i32::MAX && x + w - 1 <= i32::MAX && y + h - 1
            <= i32::MAX,
    ensures
        blended_with(
            final(buf)@,
            old(buf)@,
            buf_width as int,
            buf_height as int,
            |px: int, py: int| in_rect(x as int, y as int, w as int, h as int, px, py),
            fr,
            fg,
            fb,
            alpha,
        ),
{
    let ghost (bw, bh) = (buf_width as int, buf_height as int);
    let mut dy: usize = 0;
    while dy < h
        invariant
            dy <= h,
            buf_width <= i32::MAX,
            buf_height <= i32::MAX,
            w > 0 && h > 0 ==> w - 1 <= i32::MAX && h - 1 <= i32::MAX && x + w - 1 <= i32::MAX && y + h - 1 <= i32::MAX,
            bw == buf_width && bh == buf_height,
            buf_width * buf_height <= old(buf)@.len(),
            blended_with(buf@, old(buf)@, bw, bh, |px: int, py: int| in_rect(x as int, y as int, w as int, dy as int, px, py), fr, fg, fb, alpha),
        decreases h - dy,
    {
        let mut dx: usize = 0;
        while dx < w
            invariant
                dy < h,
                dx <= w,
                buf_width <= i32::MAX,
                buf_height <= i32::MAX,
                w > 0 && h > 0 ==> w - 1 <= i32::MAX && h - 1 <= i32::MAX && x + w - 1 <= i32::MAX && y + h - 1 <= i32::MAX,
                bw == buf_width && bh == buf_height,
                buf_width * buf_height <= old(buf)@.len(),
                blended_with(
                    buf@,
                    old(buf)@,
                    bw,
                    bh,
                    |px: int, py: int| in_rect(x as int, y as int, w as int, dy as int, px, py) || (py == y + dy && x <= px < x + dx),
                    fr,
                    fg,
                    fb,
                    alpha,
                ),
            decreases w - dx,
        {
            let px = x + dx as i32;
            let py = y + dy as i32;
            if !(px < 0 || py < 0 || px >= buf_width as i32 || py >= buf_height as i32) {
                let ux = px as usize;
                let uy = py as usize;
                proof {
                    lemma_flat(bw, bh, ux as int, uy as int, ux as int, uy as int);
                }
                let n = buf.len();
                assert(uy * buf_width <= uy * buf_width + ux < n);
                let idx = uy * buf_width + ux;
                let existing = buf[idx];
                let v = blend_one(existing, fr, fg, fb, alpha);
                put(buf, buf_width, buf_height, ux, uy, v);
            }
            dx = dx + 1;
        }
        dy = dy + 1;
        proof {
            assert forall|px: int, py: int| #![auto] in_rect(x as int, y as int, w as int, (dy - 1) as int, px, py) || (py == y + dy - 1 && x <= px < x + w)
                <==> in_rect(x as int, y as int, w as int, dy as int, px, py) by {}
        }
    }
}

} // verus!
