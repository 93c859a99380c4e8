//! The monochrome braille backend.
//!
//! Each terminal cell is a 2×4 grid of dots (U+2800–U+28FF), which gives points twice the
//! horizontal and four times the vertical resolution of plain cells. A point lights the dot that
//! it falls on; a silhouette is probed on a grid of samples and lights the dots of those that lie
//! on it. Where the samples are, and how far out on the silhouette each lies, the caller computes
//! in double precision.

use ratatui::buffer::Buffer;
use vstd::prelude::*;
use vstd::arithmetic::power2::pow2;
use crate::binary64::Binary64;
use crate::canvas::{has_cell, set_char};
use crate::render::{is_on_silhouette, Rect, RenderBody, RenderKind};

verus! {

/// A point in fractional cell coordinates, local to the area.
#[derive(Clone, Copy, Debug, PartialEq, Eq, Structural)]
pub struct Sample {
    /// Fractional cell column.
    pub col: Binary64,
    /// Fractional cell row.
    pub row: Binary64,
}

/// A sample at which a silhouette is probed.
#[derive(Clone, Copy, Debug, PartialEq, Eq, Structural)]
pub struct Probe {
    /// Where it is.
    pub at: Sample,
    /// Its squared distance from the silhouette's centre, in units of the semi-axes.
    pub rho2: Binary64,
}

/// The braille renderer.
#[derive(Clone, Copy, Debug, PartialEq, Eq, Structural)]
pub struct BrailleRenderer;

/// The dot bit for sub-cell position `(x, y)` in the standard numbering of braille dots: 1–3 and
/// 4–6 down the columns, 7 and 8 across the bottom.
pub open spec fn dot_bit(x: int, y: int) -> u8 {
    if x == 0 {
        if y == 0 {
            0x01
        } else if y == 1 {
            0x02
        } else if y == 2 {
            0x04
        } else if y == 3 {
            0x40
        } else {
            0
        }
    } else if x == 1 {
        if y == 0 {
            0x08
        } else if y == 1 {
            0x10
        } else if y == 2 {
            0x20
        } else if y == 3 {
            0x80
        } else {
            0
        }
    } else {
        0
    }
}

/// The dot bit for sub-cell position `(x, y)`; zero off the grid.
pub fn braille_bit(x: usize, y: usize) -> (r: u8)
    ensures
        r == dot_bit(x as int, y as int),
{
    match (x, y) {
        (0, 0) => 0x01,
        (0, 1) => 0x02,
        (0, 2) => 0x04,
        (0, 3) => 0x40,
        (1, 0) => 0x08,
        (1, 1) => 0x10,
        (1, 2) => 0x20,
        (1, 3) => 0x80,
        _ => 0,
    }
}

/// Every place on the grid has a bit, and different places have different ones.
pub proof fn law_dots_are_independent(x: int, y: int, u: int, v: int)
    requires
        0 <= x < 2,
        0 <= y < 4,
        0 <= u < 2,
        0 <= v < 4,
    ensures
        dot_bit(x, y) != 0,
        (x, y) != (u, v) ==> dot_bit(x, y) & dot_bit(u, v) == 0,
{
    let (a, b) = (dot_bit(x, y), dot_bit(u, v));
    assert((a == 0x01 || a == 0x02 || a == 0x04 || a == 0x08 || a == 0x10 || a == 0x20 || a == 0x40
        || a == 0x80) && (b == 0x01 || b == 0x02 || b == 0x04 || b == 0x08 || b == 0x10 || b == 0x20
        || b == 0x40 || b == 0x80) && a != b ==> a & b == 0) by (bit_vector);
}

/// The dot that a sample falls on, in a grid of `w` by `h` cells: the floor of twice its column
/// and of four times its row. A sample that is not finite, is negative or lies off the grid
/// falls on none.
pub open spec fn dot_of(s: Sample, w: int, h: int) -> Option<(int, int)> {
    let zero = Binary64 { bits: 0 };
    let dx = crate::binary64::floor_shifted(s.col, 1);
    let dy = crate::binary64::floor_shifted(s.row, 2);
    if crate::binary64::finite(s.col) && crate::binary64::finite(s.row)
        && !crate::binary64::less(s.col, zero) && !crate::binary64::less(s.row, zero) && dx < 2 * w
        && dy < 4 * h {
        Some((dx, dy))
    } else {
        None
    }
}

/// Some sample falls on dot `(dx, dy)`.
pub open spec fn lit(samples: Seq<Sample>, w: int, h: int, dx: int, dy: int) -> bool {
    exists|k: int| 0 <= k < samples.len() && dot_of(#[trigger] samples[k], w, h) == Some((dx, dy))
}

/// The bit of a dot if it is lit.
pub open spec fn lit_bit(samples: Seq<Sample>, w: int, h: int, cx: int, cy: int, x: int, y: int) -> int {
    if lit(samples, w, h, 2 * cx + x, 4 * cy + y) {
        dot_bit(x, y) as int
    } else {
        0
    }
}

/// The dots of cell `(cx, cy)`: the sum of the bits that are lit in it.
pub open spec fn cell_byte(samples: Seq<Sample>, w: int, h: int, cx: int, cy: int) -> int {
    lit_bit(samples, w, h, cx, cy, 0, 0) + lit_bit(samples, w, h, cx, cy, 0, 1) + lit_bit(
        samples,
        w,
        h,
        cx,
        cy,
        0,
        2,
    ) + lit_bit(samples, w, h, cx, cy, 0, 3) + lit_bit(samples, w, h, cx, cy, 1, 0) + lit_bit(
        samples,
        w,
        h,
        cx,
        cy,
        1,
        1,
    ) + lit_bit(samples, w, h, cx, cy, 1, 2) + lit_bit(samples, w, h, cx, cy, 1, 3)
}

/// The accumulator holds the dots of the samples.
spec fn accumulates(dots: Seq<u8>, samples: Seq<Sample>, w: int, h: int) -> bool {
    &&& dots.len() == w * h
    &&& forall|cx: int, cy: int, x: int, y: int|
        #![trigger lit(samples, w, h, 2 * cx + x, 4 * cy + y)]
        #![trigger dots[cy * w + cx], dot_bit(x, y)]
        0 <= cx < w && 0 <= cy < h && 0 <= x < 2 && 0 <= y < 4 ==> ((dots[cy * w + cx] & dot_bit(
            x,
            y,
        ) != 0) == lit(samples, w, h, 2 * cx + x, 4 * cy + y))
}

/// Light the dot under a sample, if any.
fn plot_dot(dots: &mut Vec<u8>, w: usize, h: usize, s: Sample, Ghost(samples): Ghost<Seq<Sample>>)
    requires
        w <= 0xFFFF,
        h <= 0xFFFF,
        accumulates(old(dots)@, samples, w as int, h as int),
    ensures
        accumulates(final(dots)@, samples.push(s), w as int, h as int),
{
    let ghost before = dots@;
    let ghost after = samples.push(s);
    let zero: Binary64 = Binary64::from_bits(0);
    proof {
        lemma_lit_push(samples, s, w as int, h as int);
    }
    if !s.col.is_finite() || !s.row.is_finite() || s.col.lt(zero) || s.row.lt(zero) {
        return;
    }
    let dx: u64 = s.col.floor_shl(1);
    let dy: u64 = s.row.floor_shl(2);
    if dx >= 2 * w as u64 || dy >= 4 * h as u64 {
        return;
    }
    let (cx, cy, x, y): (usize, usize, usize, usize) = (
        (dx / 2) as usize,
        (dy / 4) as usize,
        (dx % 2) as usize,
        (dy % 4) as usize,
    );
    proof {
        crate::canvas::lemma_places(w as int, h as int, cx as int, cy as int, 0, 0);
        assert(w * h <= 0xFFFF * 0xFFFF) by (nonlinear_arith)
            requires
                w <= 0xFFFF,
                h <= 0xFFFF,
        ;
        assert(cy * w <= cy * w + cx);
        assert(0 <= cy * w) by (nonlinear_arith);
    }
    let place: usize = cy * w + cx;
    let bit: u8 = braille_bit(x, y);
    let held: u8 = dots[place];
    dots.set(place, held | bit);
    proof {
        let now = dots@;
        assert forall|ux: int, uy: int, a: int, b: int|
            #![trigger lit(after, w as int, h as int, 2 * ux + a, 4 * uy + b)]
            #![trigger now[uy * w + ux], dot_bit(a, b)]
            0 <= ux < w && 0 <= uy < h && 0 <= a < 2 && 0 <= b < 4 implies ((now[uy * w + ux]
            & dot_bit(a, b) != 0) == lit(after, w as int, h as int, 2 * ux + a, 4 * uy + b)) by {
            crate::canvas::lemma_places(w as int, h as int, ux, uy, cx as int, cy as int);
            let d = dot_bit(a, b);
            assert(lit(samples, w as int, h as int, 2 * ux + a, 4 * uy + b) == (before[uy * w + ux]
                & d != 0));
            law_dots_are_independent(x as int, y as int, a, b);
            if ux == cx && uy == cy {
                assert((held | bit) & d != 0 <==> (held & d != 0) || (bit & d != 0))
                    by (bit_vector);
                assert(bit == d ==> (bit & d) == d) by (bit_vector);
            }
            assert((2 * ux + a, 4 * uy + b) == (dx as int, dy as int) <==> ux == cx && uy == cy && a
                == x && b == y);
        }
    }
}

/// One more sample lights the dot that it falls on.
proof fn lemma_lit_push(samples: Seq<Sample>, s: Sample, w: int, h: int)
    ensures
        forall|dx: int, dy: int| #[trigger]
            lit(samples.push(s), w, h, dx, dy) <==> lit(samples, w, h, dx, dy) || dot_of(s, w, h)
                == Some((dx, dy)),
{
    let after = samples.push(s);
    assert forall|dx: int, dy: int| #[trigger] lit(after, w, h, dx, dy) <==> lit(
        samples,
        w,
        h,
        dx,
        dy,
    ) || dot_of(s, w, h) == Some((dx, dy)) by {
        if lit(samples, w, h, dx, dy) {
            let k = choose|k: int|
                0 <= k < samples.len() && dot_of(#[trigger] samples[k], w, h) == Some((dx, dy));
            assert(after[k] == samples[k]);
        }
        if dot_of(s, w, h) == Some((dx, dy)) {
            assert(after[samples.len() as int] == s);
        }
        if lit(after, w, h, dx, dy) {
            let k = choose|k: int|
                0 <= k < after.len() && dot_of(#[trigger] after[k], w, h) == Some((dx, dy));
            if k < samples.len() {
                assert(samples[k] == after[k]);
            }
        }
    }
}

/// `char::from_u32` of `std`: the character with a code, where the code is that of one.
#[verifier::external_body]
fn char_from_code(code: u32) -> (r: Option<char>)
    ensures
        code < 0xD800 || 0xE000 <= code <= 0x10FFFF ==> r == Some(code as char),
        0xD800 <= code < 0xE000 || 0x10FFFF < code ==> r is None,
{
    char::from_u32(code)
}

/// The cell at place `(cx, cy)` has dots to show.
pub open spec fn inked(samples: Seq<Sample>, area: Rect, cx: int, cy: int) -> bool {
    &&& 0 <= cx < area.width && 0 <= cy < area.height
    &&& cell_byte(samples, area.width as int, area.height as int, cx, cy) != 0
}

/// The buffer has the cell at place `(cx, cy)` of the area.
pub open spec fn cell_there(buf: Buffer, area: Rect, cx: int, cy: int) -> bool {
    area.x + cx <= 0xFFFF && area.y + cy <= 0xFFFF && crate::canvas::cells(buf).contains_key(
        ((area.x + cx) as u16, (area.y + cy) as u16),
    )
}

/// The buffer has every cell of the area that has dots to show.
pub open spec fn reachable(buf: Buffer, samples: Seq<Sample>, area: Rect) -> bool {
    forall|cx: int, cy: int| #[trigger]
        inked(samples, area, cx, cy) ==> cell_there(buf, area, cx, cy)
}

/// What the buffer shows at `(x, y)` once the samples are drawn into the area: the braille
/// character of the cell's dots where it has any, and otherwise what it showed before.
pub open spec fn drawn_cell(
    before: crate::canvas::CellModel,
    samples: Seq<Sample>,
    area: Rect,
    x: int,
    y: int,
) -> crate::canvas::CellModel {
    let (cx, cy) = (x - area.x, y - area.y);
    if inked(samples, area, cx, cy) {
        crate::canvas::CellModel {
            symbol: seq![
                (0x2800 + cell_byte(samples, area.width as int, area.height as int, cx, cy)) as char,
            ],
            ..before
        }
    } else {
        before
    }
}

/// The samples are drawn into the area of the buffer, and nothing else changes.
pub open spec fn drawn(before: Buffer, after: Buffer, samples: Seq<Sample>, area: Rect) -> bool {
    &&& crate::canvas::buffer_area(after) == crate::canvas::buffer_area(before)
    &&& crate::canvas::cells(after).dom() == crate::canvas::cells(before).dom()
    &&& forall|x: u16, y: u16| #[trigger]
        crate::canvas::cells(before).contains_key((x, y)) ==> crate::canvas::cells(after)[(x, y)]
            == drawn_cell(
            crate::canvas::cells(before)[(x, y)],
            samples,
            area,
            x as int,
            y as int,
        )
}

/// Cell `(x, y)` of the area comes before place `(cx, cy)`, row by row.
spec fn painted(area: Rect, x: int, y: int, cx: int, cy: int) -> bool {
    y - area.y < cy || (y - area.y == cy && x - area.x < cx)
}

/// Write the accumulated dots into the buffer.
fn paint(buf: &mut Buffer, dots: &Vec<u8>, area: Rect, Ghost(samples): Ghost<Seq<Sample>>)
    requires
        accumulates(dots@, samples, area.width as int, area.height as int),
        reachable(*old(buf), samples, area),
    ensures
        drawn(*old(buf), *final(buf), samples, area),
{
    let (w, h): (usize, usize) = (area.width as usize, area.height as usize);
    let ghost first = crate::canvas::cells(*buf);
    let mut cy: usize = 0;
    while cy < h
        invariant
            w == area.width,
            h == area.height,
            cy <= h,
            accumulates(dots@, samples, w as int, h as int),
            reachable(*old(buf), samples, area),
            first == crate::canvas::cells(*old(buf)),
            crate::canvas::buffer_area(*buf) == crate::canvas::buffer_area(*old(buf)),
            crate::canvas::cells(*buf).dom() == first.dom(),
            forall|x: u16, y: u16| #[trigger]
                first.contains_key((x, y)) ==> crate::canvas::cells(*buf)[(x, y)] == if painted(
                    area,
                    x as int,
                    y as int,
                    0,
                    cy as int,
                ) {
                    drawn_cell(first[(x, y)], samples, area, x as int, y as int)
                } else {
                    first[(x, y)]
                },
        decreases h - cy,
    {
        let mut cx: usize = 0;
        while cx < w
            invariant
                w == area.width,
                h == area.height,
                cy < h,
                cx <= w,
                accumulates(dots@, samples, w as int, h as int),
                reachable(*old(buf), samples, area),
                first == crate::canvas::cells(*old(buf)),
                crate::canvas::buffer_area(*buf) == crate::canvas::buffer_area(*old(buf)),
                crate::canvas::cells(*buf).dom() == first.dom(),
                forall|x: u16, y: u16| #[trigger]
                    first.contains_key((x, y)) ==> crate::canvas::cells(*buf)[(x, y)] == if painted(
                        area,
                        x as int,
                        y as int,
                        cx as int,
                        cy as int,
                    ) {
                        drawn_cell(first[(x, y)], samples, area, x as int, y as int)
                    } else {
                        first[(x, y)]
                    },
            decreases w - cx,
        {
            proof {
                crate::canvas::lemma_places(w as int, h as int, cx as int, cy as int, 0, 0);
                assert(0 <= cy * w) by (nonlinear_arith);
                assert(w * h <= 0xFFFF * 0xFFFF) by (nonlinear_arith)
                    requires
                        w <= 0xFFFF,
                        h <= 0xFFFF,
                ;
            }
            let bits: u8 = dots[cy * w + cx];
            proof {
                lemma_byte(dots@, samples, w as int, h as int, cx as int, cy as int);
            }
            assert(bits == cell_byte(samples, w as int, h as int, cx as int, cy as int));
            if bits != 0 {
                assert(inked(samples, area, cx as int, cy as int));
                let ch: char = match char_from_code(0x2800 + bits as u32) {
                    Some(c) => c,
                    None => ' ',
                };
                let (x, y): (u16, u16) = (area.x + cx as u16, area.y + cy as u16);
                assert(first.contains_key((x, y)));
                set_char(buf, x, y, ch);
                assert(crate::canvas::cells(*buf).dom() =~= first.dom());
            }
            cx = cx + 1;
        }
        cy = cy + 1;
    }
}

/// A cell's accumulated byte is the sum of the bits that are lit in it.
proof fn lemma_byte(dots: Seq<u8>, samples: Seq<Sample>, w: int, h: int, cx: int, cy: int)
    requires
        accumulates(dots, samples, w, h),
        0 <= cx < w,
        0 <= cy < h,
    ensures
        dots[cy * w + cx] == cell_byte(samples, w, h, cx, cy),
{
    let b = dots[cy * w + cx];
    assert(b & 0x01 == 0 || b & 0x01 == 0x01) by (bit_vector);
    assert(b & 0x02 == 0 || b & 0x02 == 0x02) by (bit_vector);
    assert(b & 0x04 == 0 || b & 0x04 == 0x04) by (bit_vector);
    assert(b & 0x08 == 0 || b & 0x08 == 0x08) by (bit_vector);
    assert(b & 0x10 == 0 || b & 0x10 == 0x10) by (bit_vector);
    assert(b & 0x20 == 0 || b & 0x20 == 0x20) by (bit_vector);
    assert(b & 0x40 == 0 || b & 0x40 == 0x40) by (bit_vector);
    assert(b & 0x80 == 0 || b & 0x80 == 0x80) by (bit_vector);
    assert(b == (b & 0x01) + (b & 0x02) + (b & 0x04) + (b & 0x08) + (b & 0x10) + (b & 0x20) + (b
        & 0x40) + (b & 0x80)) by (bit_vector);
    assert(dot_bit(0, 0) == 0x01 && dot_bit(0, 1) == 0x02 && dot_bit(0, 2) == 0x04 && dot_bit(0, 3)
        == 0x40 && dot_bit(1, 0) == 0x08 && dot_bit(1, 1) == 0x10 && dot_bit(1, 2) == 0x20
        && dot_bit(1, 3) == 0x80);
}

/// The samples among the first `n` probes that lie on the silhouette.
pub open spec fn covered(fill: Seq<Probe>, n: int) -> Seq<Sample>
    decreases n,
{
    if n <= 0 {
        Seq::empty()
    } else if crate::render::on_silhouette(fill[n - 1].rho2) {
        covered(fill, n - 1).push(fill[n - 1].at)
    } else {
        covered(fill, n - 1)
    }
}

/// The samples of one body: its centre for a point, those of its probes that lie on it for an
/// ellipsoid that can be filled, none for another.
pub open spec fn body_samples(b: RenderBody, fill: Seq<Probe>) -> Seq<Sample> {
    match b.kind {
        RenderKind::Point => seq![Sample { col: b.col, row: b.row }],
        RenderKind::Ellipsoid { .. } => if crate::render::fillable(b) {
            covered(fill, fill.len() as int)
        } else {
            Seq::empty()
        },
    }
}

/// The samples of the first `n` bodies.
pub open spec fn all_samples(bodies: Seq<RenderBody>, fills: Seq<Seq<Probe>>, n: int) -> Seq<Sample>
    decreases n,
{
    if n <= 0 {
        Seq::empty()
    } else {
        all_samples(bodies, fills, n - 1) + body_samples(bodies[n - 1], fills[n - 1])
    }
}

/// Plot every sample of a list on top of those already there.
fn plot_all(
    dots: &mut Vec<u8>,
    w: usize,
    h: usize,
    list: &Vec<Sample>,
    Ghost(samples): Ghost<Seq<Sample>>,
)
    requires
        w <= 0xFFFF,
        h <= 0xFFFF,
        accumulates(old(dots)@, samples, w as int, h as int),
    ensures
        accumulates(final(dots)@, samples + list@, w as int, h as int),
{
    let mut k: usize = 0;
    assert(samples + list@.take(0) =~= samples);
    while k < list.len()
        invariant
            w <= 0xFFFF,
            h <= 0xFFFF,
            k <= list@.len(),
            accumulates(dots@, samples + list@.take(k as int), w as int, h as int),
        decreases list@.len() - k,
    {
        plot_dot(dots, w, h, list[k], Ghost(samples + list@.take(k as int)));
        assert((samples + list@.take(k as int)).push(list@[k as int]) =~= samples + list@.take(
            k + 1,
        ));
        k = k + 1;
    }
    assert(list@.take(k as int) =~= list@);
}

/// Plot every probe that lies on its silhouette on top of the samples already there.
fn plot_covered(
    dots: &mut Vec<u8>,
    w: usize,
    h: usize,
    fill: &Vec<Probe>,
    Ghost(samples): Ghost<Seq<Sample>>,
)
    requires
        w <= 0xFFFF,
        h <= 0xFFFF,
        accumulates(old(dots)@, samples, w as int, h as int),
    ensures
        accumulates(
            final(dots)@,
            samples + covered(fill@, fill@.len() as int),
            w as int,
            h as int,
        ),
{
    let mut k: usize = 0;
    assert(samples + covered(fill@, 0) =~= samples);
    while k < fill.len()
        invariant
            w <= 0xFFFF,
            h <= 0xFFFF,
            k <= fill@.len(),
            accumulates(dots@, samples + covered(fill@, k as int), w as int, h as int),
        decreases fill@.len() - k,
    {
        let probe: Probe = fill[k];
        if is_on_silhouette(probe.rho2) {
            plot_dot(dots, w, h, probe.at, Ghost(samples + covered(fill@, k as int)));
            assert((samples + covered(fill@, k as int)).push(probe.at) =~= samples + covered(
                fill@,
                k + 1,
            ));
        }
        k = k + 1;
    }
}

/// An accumulator without dots, one byte per cell.
fn no_dots(w: usize, h: usize) -> (r: Vec<u8>)
    requires
        w <= 0xFFFF,
        h <= 0xFFFF,
    ensures
        accumulates(r@, Seq::empty(), w as int, h as int),
{
    assert(0 <= w * h <= 0xFFFF * 0xFFFF) by (nonlinear_arith)
        requires
            w <= 0xFFFF,
            h <= 0xFFFF,
    ;
    let r: Vec<u8> = vec![0u8; w * h];
    proof {
        assert forall|cx: int, cy: int, x: int, y: int|
            #![trigger lit(Seq::empty(), w as int, h as int, 2 * cx + x, 4 * cy + y)]
            #![trigger r@[cy * w + cx], dot_bit(x, y)]
            0 <= cx < w && 0 <= cy < h && 0 <= x < 2 && 0 <= y < 4 implies ((r@[cy * w + cx]
            & dot_bit(x, y) != 0) == lit(
            Seq::<Sample>::empty(),
            w as int,
            h as int,
            2 * cx + x,
            4 * cy + y,
        )) by {
            crate::canvas::lemma_places(w as int, h as int, cx, cy, 0, 0);
            let d = dot_bit(x, y);
            assert(0u8 & d == 0) by (bit_vector);
        }
    }
    r
}

/// Accumulate the dots of bodies.
fn gather(bodies: &Vec<RenderBody>, fills: &Vec<Vec<Probe>>, area: Rect) -> (r: Vec<u8>)
    requires
        fills@.len() == bodies@.len(),
    ensures
        accumulates(
            r@,
            all_samples(bodies@, crate::renderer::views(fills@), bodies@.len() as int),
            area.width as int,
            area.height as int,
        ),
{
    let (w, h): (usize, usize) = (area.width as usize, area.height as usize);
    let mut dots: Vec<u8> = no_dots(w, h);
    let mut n: usize = 0;
    while n < bodies.len()
        invariant
            w == area.width,
            h == area.height,
            n <= bodies@.len(),
            fills@.len() == bodies@.len(),
            accumulates(dots@, all_samples(bodies@, crate::renderer::views(fills@), n as int), w as int, h as int),
        decreases bodies@.len() - n,
    {
        let b: RenderBody = bodies[n];
        let ghost samples = all_samples(bodies@, crate::renderer::views(fills@), n as int);
        match b.kind {
            RenderKind::Point => {
                let s: Sample = Sample { col: b.col, row: b.row };
                plot_dot(&mut dots, w, h, s, Ghost(samples));
                assert(samples.push(s) =~= samples + seq![s]);
            },
            RenderKind::Ellipsoid { .. } => {
                assert(samples + Seq::empty() =~= samples);
                if b.is_fillable() {
                    plot_covered(&mut dots, w, h, &fills[n], Ghost(samples));
                }
            },
        }
        n = n + 1;
    }
    dots
}

/// Whether the buffer has every cell of the area that has dots to show.
fn reaches(buf: &Buffer, dots: &Vec<u8>, area: Rect, Ghost(samples): Ghost<Seq<Sample>>) -> (r: bool)
    requires
        accumulates(dots@, samples, area.width as int, area.height as int),
    ensures
        r == reachable(*buf, samples, area),
{
    let (w, h): (usize, usize) = (area.width as usize, area.height as usize);
    let mut cy: usize = 0;
    while cy < h
        invariant
            w == area.width,
            h == area.height,
            cy <= h,
            accumulates(dots@, samples, w as int, h as int),
            forall|x: int, y: int| #[trigger]
                inked(samples, area, x, y) && y < cy ==> cell_there(*buf, area, x, y),
        decreases h - cy,
    {
        let mut cx: usize = 0;
        while cx < w
            invariant
                w == area.width,
                h == area.height,
                cy < h,
                cx <= w,
                accumulates(dots@, samples, w as int, h as int),
                forall|x: int, y: int| #[trigger]
                    inked(samples, area, x, y) && (y < cy || (y == cy && x < cx)) ==> cell_there(
                        *buf,
                        area,
                        x,
                        y,
                    ),
            decreases w - cx,
        {
            proof {
                crate::canvas::lemma_places(w as int, h as int, cx as int, cy as int, 0, 0);
                assert(0 <= cy * w) by (nonlinear_arith);
                assert(w * h <= 0xFFFF * 0xFFFF) by (nonlinear_arith)
                    requires
                        w <= 0xFFFF,
                        h <= 0xFFFF,
                ;
                lemma_byte(dots@, samples, w as int, h as int, cx as int, cy as int);
            }
            if dots[cy * w + cx] != 0 {
                assert(inked(samples, area, cx as int, cy as int));
                let (x, y): (u32, u32) = (area.x as u32 + cx as u32, area.y as u32 + cy as u32);
                if x > 0xFFFF || y > 0xFFFF || !has_cell(buf, x as u16, y as u16) {
                    assert(!cell_there(*buf, area, cx as int, cy as int));
                    return false;
                }
            }
            cx = cx + 1;
        }
        cy = cy + 1;
    }
    true
}

impl BrailleRenderer {
    /// Create a braille renderer.
    pub fn new() -> (r: Self)
        ensures
            r == BrailleRenderer,
    {
        BrailleRenderer
    }

    /// Draw `bodies` into `buf`: a point lights the dot under its centre, an ellipsoid the dots
    /// under those of its probes, in `fills`, that lie on its silhouette. A degenerate ellipsoid
    /// lights none, and cells without a lit dot stay as they were.
    pub fn draw_bodies(
        &self,
        bodies: &Vec<RenderBody>,
        fills: &Vec<Vec<Probe>>,
        area: Rect,
        buf: &mut Buffer,
    )
        requires
            fills@.len() == bodies@.len(),
            reachable(*old(buf), all_samples(bodies@, crate::renderer::views(fills@), bodies@.len() as int), area),
        ensures
            drawn(
                *old(buf),
                *final(buf),
                all_samples(bodies@, crate::renderer::views(fills@), bodies@.len() as int),
                area,
            ),
    {
        let dots: Vec<u8> = gather(bodies, fills, area);
        paint(buf, &dots, area, Ghost(all_samples(bodies@, crate::renderer::views(fills@), bodies@.len() as int)));
    }

    /// Draw `bodies` where the buffer has every cell with a lit dot, and say whether it has;
    /// where it has not, it is left as it was.
    pub fn try_draw_bodies(
        &self,
        bodies: &Vec<RenderBody>,
        fills: &Vec<Vec<Probe>>,
        area: Rect,
        buf: &mut Buffer,
    ) -> (r: bool)
        requires
            fills@.len() == bodies@.len(),
        ensures
            r == reachable(*old(buf), all_samples(bodies@, crate::renderer::views(fills@), bodies@.len() as int), area),
            r ==> drawn(
                *old(buf),
                *final(buf),
                all_samples(bodies@, crate::renderer::views(fills@), bodies@.len() as int),
                area,
            ),
            !r ==> *final(buf) == *old(buf),
    {
        let ghost samples = all_samples(bodies@, crate::renderer::views(fills@), bodies@.len() as int);
        let dots: Vec<u8> = gather(bodies, fills, area);
        if !reaches(buf, &dots, area, Ghost(samples)) {
            return false;
        }
        self.draw_bodies(bodies, fills, area, buf);
        true
    }

    /// Draw bare points: each lights the dot that it falls on.
    pub fn draw_points(&self, points: &Vec<Sample>, area: Rect, buf: &mut Buffer)
        requires
            reachable(*old(buf), points@, area),
        ensures
            drawn(*old(buf), *final(buf), points@, area),
    {
        let (w, h): (usize, usize) = (area.width as usize, area.height as usize);
        let mut dots: Vec<u8> = no_dots(w, h);
        plot_all(&mut dots, w, h, points, Ghost(Seq::empty()));
        assert(Seq::empty() + points@ =~= points@);
        paint(buf, &dots, area, Ghost(points@));
    }

    /// Draw bare points where the buffer has every cell with a lit dot, and say whether it has;
    /// where it has not, it is left as it was.
    pub fn try_draw_points(&self, points: &Vec<Sample>, area: Rect, buf: &mut Buffer) -> (r: bool)
        ensures
            r == reachable(*old(buf), points@, area),
            r ==> drawn(*old(buf), *final(buf), points@, area),
            !r ==> *final(buf) == *old(buf),
    {
        let (w, h): (usize, usize) = (area.width as usize, area.height as usize);
        let mut dots: Vec<u8> = no_dots(w, h);
        plot_all(&mut dots, w, h, points, Ghost(Seq::empty()));
        assert(Seq::empty() + points@ =~= points@);
        if !reaches(buf, &dots, area, Ghost(points@)) {
            return false;
        }
        self.draw_points(points, area, buf);
        true
    }
}

impl Default for BrailleRenderer {
    /// The braille renderer.
    fn default() -> (r: Self)
        ensures
            r == BrailleRenderer,
    {
        BrailleRenderer
    }
}

/// Moving the area moves the picture with it: a cell shows the same at the same place in the
/// area.
pub proof fn law_area_offset_moves_the_picture(
    samples: Seq<Sample>,
    a: Rect,
    b: Rect,
    cx: int,
    cy: int,
    cell: crate::canvas::CellModel,
)
    requires
        a.width == b.width,
        a.height == b.height,
    ensures
        drawn_cell(cell, samples, a, a.x + cx, a.y + cy) == drawn_cell(
            cell,
            samples,
            b,
            b.x + cx,
            b.y + cy,
        ),
{
}

/// Neither the order in which samples are drawn nor how often one is drawn matters: two lists
/// with the same samples draw the same.
pub proof fn law_sample_order_is_irrelevant(
    a: Seq<Sample>,
    b: Seq<Sample>,
    area: Rect,
    x: int,
    y: int,
    cell: crate::canvas::CellModel,
)
    requires
        forall|s: Sample| a.contains(s) <==> b.contains(s),
    ensures
        drawn_cell(cell, a, area, x, y) == drawn_cell(cell, b, area, x, y),
{
    let (w, h) = (area.width as int, area.height as int);
    assert forall|dx: int, dy: int| #[trigger] lit(a, w, h, dx, dy) == lit(b, w, h, dx, dy) by {
        lemma_lit_within(a, b, w, h, dx, dy);
        lemma_lit_within(b, a, w, h, dx, dy);
    }
}

/// A dot that a list lights, every list with its samples lights too.
proof fn lemma_lit_within(a: Seq<Sample>, b: Seq<Sample>, w: int, h: int, dx: int, dy: int)
    requires
        forall|s: Sample| a.contains(s) ==> b.contains(s),
    ensures
        lit(a, w, h, dx, dy) ==> lit(b, w, h, dx, dy),
{
    if lit(a, w, h, dx, dy) {
        let k = choose|k: int|
            0 <= k < a.len() && dot_of(#[trigger] a[k], w, h) == Some((dx, dy));
        assert(a.contains(a[k]));
        let j = choose|j: int| 0 <= j < b.len() && b[j] == a[k];
        assert(dot_of(b[j], w, h) == Some((dx, dy)));
    }
}

/// A sample lights the dot of its own half and quarter of its own cell: where it falls on dot
/// `(dx, dy)`, twice its column lies between `dx` and `dx + 1` and four times its row between
/// `dy` and `dy + 1`. It falls on a dot exactly when it lies in the grid.
pub proof fn law_dot_lies_under_its_sample(s: Sample, w: int, h: int, dx: int, dy: int)
    requires
        w >= 0,
        h >= 0,
    ensures
        dot_of(s, w, h) is Some <==> crate::binary64::between(s.col, 0, w, 1)
            && crate::binary64::between(s.row, 0, h, 1),
        dot_of(s, w, h) == Some((dx, dy)) <==> 0 <= dx < 2 * w && 0 <= dy < 4 * h
            && crate::binary64::between(s.col, dx, dx + 1, 2) && crate::binary64::between(
            s.row,
            dy,
            dy + 1,
            4,
        ),
{
    let zero = Binary64 { bits: 0 };
    let one = pow2(1074) as int;
    vstd::arithmetic::power2::lemma2_to64();
    crate::binary64::lemma_one();
    vstd::arithmetic::power2::lemma_pow2_pos(1074);
    if crate::binary64::finite(s.col) {
        crate::binary64::law_rank_orders_values(s.col, zero);
        if !crate::binary64::less(s.col, zero) {
            crate::binary64::lemma_floor_between(s.col, 1, 2);
            let c = crate::binary64::scaled(s.col);
            assert(crate::binary64::floor_shifted(s.col, 1) < 2 * w <==> 2 * c < (2 * w) * pow2(
                1074,
            ));
            assert((2 * w) * one == 2 * (w * one)) by (nonlinear_arith);
        } else {
            assert(dx >= 0 ==> dx * one >= 0) by (nonlinear_arith)
                requires
                    one > 0,
            ;
        }
    }
    if crate::binary64::finite(s.row) {
        crate::binary64::law_rank_orders_values(s.row, zero);
        if !crate::binary64::less(s.row, zero) {
            crate::binary64::lemma_floor_between(s.row, 2, 4);
            let r = crate::binary64::scaled(s.row);
            assert(crate::binary64::floor_shifted(s.row, 2) < 4 * h <==> 4 * r < (4 * h) * pow2(
                1074,
            ));
            assert((4 * h) * one == 4 * (h * one)) by (nonlinear_arith);
        } else {
            assert(dy >= 0 ==> dy * one >= 0) by (nonlinear_arith)
                requires
                    one > 0,
            ;
        }
    }
}

/// Some sample lies in column half `dx` and row quarter `dy`, counted from the area's corner.
pub open spec fn sampled(samples: Seq<Sample>, dx: int, dy: int) -> bool {
    exists|k: int|
        0 <= k < samples.len() && crate::binary64::between(
            (#[trigger] samples[k]).col,
            dx,
            dx + 1,
            2,
        ) && crate::binary64::between(samples[k].row, dy, dy + 1, 4)
}

/// A dot is lit exactly when some sample lies in its half and quarter.
proof fn lemma_lit_is_sampled(samples: Seq<Sample>, w: int, h: int, dx: int, dy: int)
    requires
        0 <= dx < 2 * w,
        0 <= dy < 4 * h,
    ensures
        lit(samples, w, h, dx, dy) <==> sampled(samples, dx, dy),
{
    if lit(samples, w, h, dx, dy) {
        let k = choose|k: int|
            0 <= k < samples.len() && dot_of(#[trigger] samples[k], w, h) == Some((dx, dy));
        law_dot_lies_under_its_sample(samples[k], w, h, dx, dy);
    }
    if sampled(samples, dx, dy) {
        let k = choose|k: int|
            0 <= k < samples.len() && crate::binary64::between(
                (#[trigger] samples[k]).col,
                dx,
                dx + 1,
                2,
            ) && crate::binary64::between(samples[k].row, dy, dy + 1, 4);
        law_dot_lies_under_its_sample(samples[k], w, h, dx, dy);
        assert(dot_of(samples[k], w, h) == Some((dx, dy)));
    }
}

/// The weight of the dot in column `x` and row `y` of a braille cell in the numbering of Unicode:
/// the upper six count in binary down the left column and then the right, the lowest two follow.
pub open spec fn dot_weight(x: int, y: int) -> int {
    if y == 3 {
        64 * (x + 1)
    } else {
        pow2((3 * x + y) as nat) as int
    }
}

/// Cell `(cx, cy)` of the area shows, by the dots of one braille character, in which of its
/// halves and quarters samples lie. A cell in which none lies stays as it was, and no cell's
/// colours change.
#[verifier::rlimit(30)]
pub proof fn law_dots_show_where_samples_lie(
    before: crate::canvas::CellModel,
    samples: Seq<Sample>,
    area: Rect,
    cx: int,
    cy: int,
    x: int,
    y: int,
)
    requires
        0 <= cx < area.width,
        0 <= cy < area.height,
        0 <= x < 2,
        0 <= y < 4,
    ensures
        ({
            let after = drawn_cell(before, samples, area, area.x + cx, area.y + cy);
            let code = after.symbol[0] as int - 0x2800;
            let here = sampled(samples, 2 * cx + x, 4 * cy + y);
            &&& after.fg == before.fg && after.bg == before.bg
            &&& here ==> after.symbol.len() == 1 && 0 < code < 256 && (code / dot_weight(x, y)) % 2
                == 1
            &&& after == before || (after.symbol.len() == 1 && 0 < code < 256 && ((code
                / dot_weight(x, y)) % 2 == 1 <==> here))
            &&& (forall|a: int, b: int|
                0 <= a < 2 && 0 <= b < 4 ==> !#[trigger] sampled(samples, 2 * cx + a, 4 * cy + b))
                ==> after == before
        }),
{
    let (w, h) = (area.width as int, area.height as int);
    let byte = cell_byte(samples, w, h, cx, cy);
    lemma_cell_byte(samples, w, h, cx, cy, x, y);
    lemma_lit_is_sampled(samples, w, h, 2 * cx + x, 4 * cy + y);
    let code = 0x2800 + byte;
    assert((code as char) as int == code);
    if forall|a: int, b: int|
        0 <= a < 2 && 0 <= b < 4 ==> !#[trigger] sampled(samples, 2 * cx + a, 4 * cy + b) {
        if byte != 0 {
            let (a, b) = lemma_cell_has_a_dot(samples, w, h, cx, cy);
            lemma_lit_is_sampled(samples, w, h, 2 * cx + a, 4 * cy + b);
            assert(sampled(samples, 2 * cx + a, 4 * cy + b));
        }
    }
}

/// A cell whose byte is not zero has a lit dot.
proof fn lemma_cell_has_a_dot(samples: Seq<Sample>, w: int, h: int, cx: int, cy: int) -> (r: (
    int,
    int,
))
    requires
        cell_byte(samples, w, h, cx, cy) != 0,
    ensures
        0 <= r.0 < 2,
        0 <= r.1 < 4,
        lit(samples, w, h, 2 * cx + r.0, 4 * cy + r.1),
{
    if lit(samples, w, h, 2 * cx + 0, 4 * cy + 0) {
        (0, 0)
    } else if lit(samples, w, h, 2 * cx + 0, 4 * cy + 1) {
        (0, 1)
    } else if lit(samples, w, h, 2 * cx + 0, 4 * cy + 2) {
        (0, 2)
    } else if lit(samples, w, h, 2 * cx + 0, 4 * cy + 3) {
        (0, 3)
    } else if lit(samples, w, h, 2 * cx + 1, 4 * cy + 0) {
        (1, 0)
    } else if lit(samples, w, h, 2 * cx + 1, 4 * cy + 1) {
        (1, 1)
    } else if lit(samples, w, h, 2 * cx + 1, 4 * cy + 2) {
        (1, 2)
    } else {
        (1, 3)
    }
}

/// A cell's byte has, at the weight of each dot, whether it is lit.
#[verifier::rlimit(30)]
proof fn lemma_cell_byte(samples: Seq<Sample>, w: int, h: int, cx: int, cy: int, x: int, y: int)
    requires
        0 <= x < 2,
        0 <= y < 4,
    ensures
        0 <= cell_byte(samples, w, h, cx, cy) < 256,
        (cell_byte(samples, w, h, cx, cy) / dot_weight(x, y)) % 2 == 1 <==> lit(
            samples,
            w,
            h,
            2 * cx + x,
            4 * cy + y,
        ),
        lit(samples, w, h, 2 * cx + x, 4 * cy + y) ==> cell_byte(samples, w, h, cx, cy) > 0,
{
    let b0 = lit_bit(samples, w, h, cx, cy, 0, 0);
    let b1 = lit_bit(samples, w, h, cx, cy, 0, 1) / 2;
    let b2 = lit_bit(samples, w, h, cx, cy, 0, 2) / 4;
    let b3 = lit_bit(samples, w, h, cx, cy, 1, 0) / 8;
    let b4 = lit_bit(samples, w, h, cx, cy, 1, 1) / 16;
    let b5 = lit_bit(samples, w, h, cx, cy, 1, 2) / 32;
    let b6 = lit_bit(samples, w, h, cx, cy, 0, 3) / 64;
    let b7 = lit_bit(samples, w, h, cx, cy, 1, 3) / 128;
    let n = b0 + 2 * b1 + 4 * b2 + 8 * b3 + 16 * b4 + 32 * b5 + 64 * b6 + 128 * b7;
    assert(cell_byte(samples, w, h, cx, cy) == n);
    lemma_binary_places(b0, b1, b2, b3, b4, b5, b6, b7);
    vstd::arithmetic::power2::lemma2_to64();
    if x == 0 {
        if y == 0 {
            assert(dot_weight(x, y) == 1 && b0 == 1 <==> lit(samples, w, h, 2 * cx + x, 4 * cy + y));
        } else if y == 1 {
            assert(dot_weight(x, y) == 2 && b1 == 1 <==> lit(samples, w, h, 2 * cx + x, 4 * cy + y));
        } else if y == 2 {
            assert(dot_weight(x, y) == 4 && b2 == 1 <==> lit(samples, w, h, 2 * cx + x, 4 * cy + y));
        } else {
            assert(dot_weight(x, y) == 64 && b6 == 1 <==> lit(
                samples,
                w,
                h,
                2 * cx + x,
                4 * cy + y,
            ));
        }
    } else {
        if y == 0 {
            assert(dot_weight(x, y) == 8 && b3 == 1 <==> lit(samples, w, h, 2 * cx + x, 4 * cy + y));
        } else if y == 1 {
            assert(dot_weight(x, y) == 16 && b4 == 1 <==> lit(
                samples,
                w,
                h,
                2 * cx + x,
                4 * cy + y,
            ));
        } else if y == 2 {
            assert(dot_weight(x, y) == 32 && b5 == 1 <==> lit(
                samples,
                w,
                h,
                2 * cx + x,
                4 * cy + y,
            ));
        } else {
            assert(dot_weight(x, y) == 128 && b7 == 1 <==> lit(
                samples,
                w,
                h,
                2 * cx + x,
                4 * cy + y,
            ));
        }
    }
}

/// A sum of eight binary places has each of them as its digit.
proof fn lemma_binary_places(
    b0: int,
    b1: int,
    b2: int,
    b3: int,
    b4: int,
    b5: int,
    b6: int,
    b7: int,
)
    requires
        0 <= b0 <= 1,
        0 <= b1 <= 1,
        0 <= b2 <= 1,
        0 <= b3 <= 1,
        0 <= b4 <= 1,
        0 <= b5 <= 1,
        0 <= b6 <= 1,
        0 <= b7 <= 1,
    ensures
        ({
            let n = b0 + 2 * b1 + 4 * b2 + 8 * b3 + 16 * b4 + 32 * b5 + 64 * b6 + 128 * b7;
            &&& (n / 1) % 2 == b0 && (n / 2) % 2 == b1 && (n / 4) % 2 == b2 && (n / 8) % 2 == b3
            &&& (n / 16) % 2 == b4 && (n / 32) % 2 == b5 && (n / 64) % 2 == b6 && (n / 128) % 2
                == b7
        }),
{
    let n = b0 + 2 * b1 + 4 * b2 + 8 * b3 + 16 * b4 + 32 * b5 + 64 * b6 + 128 * b7;
    assert(n / 2 == b1 + 2 * b2 + 4 * b3 + 8 * b4 + 16 * b5 + 32 * b6 + 64 * b7);
    assert(n / 4 == b2 + 2 * b3 + 4 * b4 + 8 * b5 + 16 * b6 + 32 * b7);
    assert(n / 8 == b3 + 2 * b4 + 4 * b5 + 8 * b6 + 16 * b7);
    assert(n / 16 == b4 + 2 * b5 + 4 * b6 + 8 * b7);
    assert(n / 32 == b5 + 2 * b6 + 4 * b7);
    assert(n / 64 == b6 + 2 * b7);
    assert(n / 128 == b7);
}

/// Drawing changes nothing outside the area, and in it only cells that the buffer has.
pub proof fn law_nothing_is_drawn_outside_the_area(
    before: Buffer,
    after: Buffer,
    samples: Seq<Sample>,
    area: Rect,
    x: u16,
    y: u16,
)
    requires
        drawn(before, after, samples, area),
        x < area.x || x >= area.x + area.width || y < area.y || y >= area.y + area.height,
    ensures
        crate::canvas::cells(after).contains_key((x, y)) == crate::canvas::cells(
            before,
        ).contains_key((x, y)),
        crate::canvas::cells(before).contains_key((x, y)) ==> crate::canvas::cells(after)[(x, y)]
            == crate::canvas::cells(before)[(x, y)],
{
}

/// Body `b` puts sample `s` into a picture: a point does its own centre, an ellipsoid with
/// positive semi-axes each of its probes that lies at most one from its centre.
pub open spec fn puts(b: RenderBody, fill: Seq<Probe>, s: Sample) -> bool {
    match b.kind {
        RenderKind::Point => s.col == b.col && s.row == b.row,
        RenderKind::Ellipsoid { semi_major, semi_minor, tilt } => {
            &&& crate::render::positive(semi_major) && crate::render::positive(semi_minor)
            &&& crate::binary64::finite(b.col) && crate::binary64::finite(b.row)
            &&& crate::binary64::finite(tilt)
            &&& exists|k: int|
                0 <= k < fill.len() && (#[trigger] fill[k]).at == s && crate::render::one_at_most(
                    fill[k].rho2,
                )
        },
    }
}

/// The covered samples are those of the probes that lie at most one from the centre.
proof fn lemma_covered(fill: Seq<Probe>, n: int, s: Sample)
    requires
        0 <= n <= fill.len(),
    ensures
        covered(fill, n).contains(s) <==> exists|k: int|
            0 <= k < n && (#[trigger] fill[k]).at == s && crate::render::one_at_most(fill[k].rho2),
    decreases n,
{
    if n > 0 {
        lemma_covered(fill, n - 1, s);
        crate::render::law_silhouette_ends_at_one(fill[n - 1].rho2);
        let t = covered(fill, n - 1);
        let u = covered(fill, n);
        if crate::render::on_silhouette(fill[n - 1].rho2) {
            assert(u.contains(s) <==> t.contains(s) || fill[n - 1].at == s) by {
                if t.contains(s) {
                    let k = choose|k: int| 0 <= k < t.len() && t[k] == s;
                    assert(u[k] == s);
                }
                if fill[n - 1].at == s {
                    assert(u[t.len() as int] == s);
                }
            }
        }
        if exists|k: int|
            0 <= k < n && (#[trigger] fill[k]).at == s && crate::render::one_at_most(fill[k].rho2) {
            let k = choose|k: int|
                0 <= k < n && (#[trigger] fill[k]).at == s && crate::render::one_at_most(
                    fill[k].rho2,
                );
            if k < n - 1 {
                assert(fill[k].at == s && crate::render::one_at_most(fill[k].rho2));
            }
        }
    }
}

/// A picture is made of exactly the samples that its bodies put into it.
pub proof fn law_picture_is_made_of_its_bodies(
    bodies: Seq<RenderBody>,
    fills: Seq<Seq<Probe>>,
    n: int,
    s: Sample,
)
    requires
        0 <= n <= bodies.len(),
    ensures
        all_samples(bodies, fills, n).contains(s) <==> exists|i: int|
            0 <= i < n && puts(#[trigger] bodies[i], fills[i], s),
    decreases n,
{
    if n > 0 {
        law_picture_is_made_of_its_bodies(bodies, fills, n - 1, s);
        let (b, fill) = (bodies[n - 1], fills[n - 1]);
        let t = all_samples(bodies, fills, n - 1);
        let own = body_samples(b, fill);
        assert(own.contains(s) <==> puts(b, fill, s)) by {
            crate::render::law_fillable_bodies(b);
            if b.kind is Point {
                assert(own[0] == Sample { col: b.col, row: b.row });
            } else {
                lemma_covered(fill, fill.len() as int, s);
            }
        }
        assert((t + own).contains(s) <==> t.contains(s) || own.contains(s)) by {
            if t.contains(s) {
                let k = choose|k: int| 0 <= k < t.len() && t[k] == s;
                assert((t + own)[k] == s);
            }
            if own.contains(s) {
                let k = choose|k: int| 0 <= k < own.len() && own[k] == s;
                assert((t + own)[t.len() + k] == s);
            }
        }
        if exists|i: int| 0 <= i < n && puts(#[trigger] bodies[i], fills[i], s) {
            let i = choose|i: int| 0 <= i < n && puts(#[trigger] bodies[i], fills[i], s);
            if i < n - 1 {
                assert(puts(bodies[i], fills[i], s));
            }
        }
    }
}

/// Drawing can reach a buffer exactly when that has every cell of the area in which a sample
/// lies.
pub proof fn law_cells_with_samples_are_needed(buf: Buffer, samples: Seq<Sample>, area: Rect)
    ensures
        reachable(buf, samples, area) <==> forall|cx: int, cy: int, a: int, b: int|
            0 <= cx < area.width && 0 <= cy < area.height && 0 <= a < 2 && 0 <= b < 4
                && #[trigger] sampled(samples, 2 * cx + a, 4 * cy + b) ==> crate::canvas::has_place(
                buf,
                area.x + cx,
                area.y + cy,
            ),
{
    let (w, h) = (area.width as int, area.height as int);
    if reachable(buf, samples, area) {
        assert forall|cx: int, cy: int, a: int, b: int|
            0 <= cx < area.width && 0 <= cy < area.height && 0 <= a < 2 && 0 <= b < 4
                && #[trigger] sampled(samples, 2 * cx + a, 4 * cy + b) implies crate::canvas::has_place(
            buf,
            area.x + cx,
            area.y + cy,
        ) by {
            lemma_lit_is_sampled(samples, w, h, 2 * cx + a, 4 * cy + b);
            lemma_cell_byte(samples, w, h, cx, cy, a, b);
            assert(inked(samples, area, cx, cy));
        }
    } else {
        let (cx, cy) = choose|cx: int, cy: int| #[trigger]
            inked(samples, area, cx, cy) && !cell_there(buf, area, cx, cy);
        let (a, b) = lemma_cell_has_a_dot(samples, w, h, cx, cy);
        lemma_lit_is_sampled(samples, w, h, 2 * cx + a, 4 * cy + b);
        assert(sampled(samples, 2 * cx + a, 4 * cy + b));
    }
}

} // verus!
