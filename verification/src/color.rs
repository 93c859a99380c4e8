//! The true-colour half-block backend, with dithered shading.
//!
//! Each terminal cell is two stacked pixels (an upper half block with its own foreground and
//! background), which makes pixels about square at one by two per cell. A point sets the pixel
//! under it at full intensity; a silhouette is probed at the centres of pixels and sets those that
//! lie on it, shaded through a [`Shader`]. Where on the silhouette each pixel lies, the caller
//! computes in double precision.

use ratatui::buffer::Buffer;
use vstd::prelude::*;
use vstd::arithmetic::power2::pow2;
use crate::binary64::Binary64;
use crate::braille::Sample;
use crate::canvas::{holds, set_bg, set_char, set_fg};
use crate::dither::quantize;
use crate::render::{is_on_silhouette, Rect, RenderBody, RenderKind};

verus! {

/// What a [`Shader`] sees for one covered pixel of a silhouette.
#[derive(Clone, Copy, Debug, PartialEq, Eq, Structural)]
pub struct ShadeSample {
    /// Limb-darkened sphere intensity in `[0, 1]`: 1 at the centre, falling to 0 at the limb.
    pub lambert: Binary64,
    /// Coordinate along the major (equatorial) axis, in `[-1, 1]`.
    pub u: Binary64,
    /// Coordinate along the minor (polar) axis, in `[-1, 1]`.
    pub v: Binary64,
}

/// Maps a covered pixel to linear RGB in `[0, 1]` per channel: the hook for shading by height or
/// slope. Quantization is the renderer's job, not the shader's.
pub trait Shader {
    /// The colour that the shader gives a pixel. The default is one fixed colour for every sample,
    /// whose value is not said: a shader whose colour varies, or is to be reasoned about, gives a
    /// definition of its own, or it does not meet the contract of [`Shader::shade`].
    open spec fn shaded(&self, sample: ShadeSample) -> [Binary64; 3] {
        arbitrary()
    }

    /// Linear RGB for one covered pixel.
    fn shade(&self, sample: ShadeSample) -> (r: [Binary64; 3])
        ensures
            r == self.shaded(sample),
    ;
}

/// The default shader: a neutral limb-darkened sphere.
#[derive(Clone, Copy, Debug, PartialEq, Eq, Structural)]
pub struct LambertGray;

impl Shader for LambertGray {
    open spec fn shaded(&self, sample: ShadeSample) -> [Binary64; 3] {
        [sample.lambert, sample.lambert, sample.lambert]
    }

    fn shade(&self, sample: ShadeSample) -> (r: [Binary64; 3]) {
        [sample.lambert, sample.lambert, sample.lambert]
    }
}

impl Default for LambertGray {
    /// The neutral shader.
    fn default() -> (r: Self)
        ensures
            r == LambertGray,
    {
        LambertGray
    }
}

/// The half-block renderer.
#[derive(Clone, Copy, Debug)]
pub struct ColorRenderer<S = LambertGray> {
    shader: S,
}

/// A half-block pixel at which a silhouette is probed.
#[derive(Clone, Copy, Debug, PartialEq, Eq, Structural)]
pub struct PixelProbe {
    /// The pixel, and what the shader sees there if it lies on the silhouette.
    pub at: Covered,
    /// The squared distance of its centre from the silhouette's, in units of the semi-axes.
    pub rho2: Binary64,
}

/// A half-block pixel that a body covers, by column and pixel row, and where on the body it lies.
#[derive(Clone, Copy, Debug, PartialEq, Eq, Structural)]
pub struct Covered {
    /// Pixel column.
    pub x: usize,
    /// Pixel row: twice the cell row, and one more for its lower half.
    pub y: usize,
    /// What the shader sees there.
    pub sample: ShadeSample,
}

/// The sample of a bare point: full intensity, at the centre.
pub open spec fn full_sample() -> ShadeSample {
    let zero = Binary64 { bits: 0 };
    ShadeSample { lambert: Binary64 { bits: crate::binary64::ONE }, u: zero, v: zero }
}

/// The pixel that a point falls on, in a grid of `w` by `h` cells: the floor of its column and
/// of twice its row. A point that is not finite, is negative or lies off the grid falls on none.
pub open spec fn pixel_of(s: Sample, w: int, h: int) -> Option<(int, int)> {
    let zero = Binary64 { bits: 0 };
    let x = crate::binary64::floor_shifted(s.col, 0);
    let y = crate::binary64::floor_shifted(s.row, 1);
    if crate::binary64::finite(s.col) && crate::binary64::finite(s.row)
        && !crate::binary64::less(s.col, zero) && !crate::binary64::less(s.row, zero) && x < w && y
        < 2 * h {
        Some((x, y))
    } else {
        None
    }
}

/// The pixels among the first `n` probes that lie on the silhouette.
pub open spec fn covered(fill: Seq<PixelProbe>, n: int) -> Seq<Covered>
    decreases n,
{
    if n <= 0 {
        Seq::empty()
    } else if crate::render::on_silhouette(fill[n - 1].rho2) {
        covered(fill, n - 1).push(fill[n - 1].at)
    } else {
        covered(fill, n - 1)
    }
}

/// The number of the area's pixels, two to a cell, is one that the machine can count to.
pub open spec fn pixels_fit(area: Rect) -> bool {
    area.width * (2 * area.height) <= usize::MAX
}

/// Whether the machine can count to the number of the area's pixels.
fn has_room(area: Rect) -> (r: bool)
    ensures
        r == pixels_fit(area),
{
    (area.width as usize).checked_mul(2 * area.height as usize).is_some()
}

/// The strokes of one body: the pixel under a point, those of its probes that lie on it for an
/// ellipsoid that can be filled, none for another.
pub open spec fn body_strokes(b: RenderBody, fill: Seq<PixelProbe>, w: int, h: int) -> Seq<Covered> {
    match b.kind {
        RenderKind::Point => match pixel_of(Sample { col: b.col, row: b.row }, w, h) {
            Some((x, y)) => seq![Covered { x: x as usize, y: y as usize, sample: full_sample() }],
            None => Seq::empty(),
        },
        RenderKind::Ellipsoid { .. } => if crate::render::fillable(b) {
            covered(fill, fill.len() as int)
        } else {
            Seq::empty()
        },
    }
}

/// The strokes of the first `n` bodies, in order.
pub open spec fn all_strokes(
    bodies: Seq<RenderBody>,
    fills: Seq<Seq<PixelProbe>>,
    n: int,
    w: int,
    h: int,
) -> Seq<Covered>
    decreases n,
{
    if n <= 0 {
        Seq::empty()
    } else {
        all_strokes(bodies, fills, n - 1, w, h) + body_strokes(
            bodies[n - 1],
            fills[n - 1],
            w,
            h,
        )
    }
}

/// What the last stroke on pixel `(x, y)` shows: later bodies are painted over earlier ones.
pub open spec fn topmost(strokes: Seq<Covered>, x: int, y: int) -> Option<ShadeSample>
    decreases strokes.len(),
{
    if strokes.len() == 0 {
        None
    } else if strokes.last().x == x && strokes.last().y == y {
        Some(strokes.last().sample)
    } else {
        topmost(strokes.drop_last(), x, y)
    }
}

/// A shaded pixel quantized to eight bits per channel at its place.
pub open spec fn tint(rgb: [Binary64; 3], x: int, y: int) -> crate::canvas::Paint {
    let t = crate::dither::bayer(x, y);
    crate::canvas::Paint::Rgb(
        crate::dither::channel(rgb[0], t) as u8,
        crate::dither::channel(rgb[1], t) as u8,
        crate::dither::channel(rgb[2], t) as u8,
    )
}

/// What a cell shows with its upper and lower pixels painted: where only one is, the half block
/// whose foreground is that half, the background left alone; where both are, the upper half
/// block with the lower pixel as background.
pub open spec fn half_block<S: Shader>(
    shader: S,
    before: crate::canvas::CellModel,
    strokes: Seq<Covered>,
    cx: int,
    cy: int,
) -> crate::canvas::CellModel {
    let upper = topmost(strokes, cx, 2 * cy);
    let lower = topmost(strokes, cx, 2 * cy + 1);
    match (upper, lower) {
        (None, None) => before,
        (Some(t), None) => crate::canvas::CellModel {
            symbol: seq!['\u{2580}'],
            fg: tint(shader.shaded(t), cx, 2 * cy),
            ..before
        },
        (None, Some(b)) => crate::canvas::CellModel {
            symbol: seq!['\u{2584}'],
            fg: tint(shader.shaded(b), cx, 2 * cy + 1),
            ..before
        },
        (Some(t), Some(b)) => crate::canvas::CellModel {
            symbol: seq!['\u{2580}'],
            fg: tint(shader.shaded(t), cx, 2 * cy),
            bg: tint(shader.shaded(b), cx, 2 * cy + 1),
        },
    }
}

/// The strokes are painted into the area of the buffer, and nothing else changes.
pub open spec fn shaded_into<S: Shader>(
    shader: S,
    before: Buffer,
    after: Buffer,
    strokes: Seq<Covered>,
    area: Rect,
) -> bool {
    &&& crate::canvas::buffer_area(after) == crate::canvas::buffer_area(before)
    &&& crate::canvas::cells(after).dom() == crate::canvas::cells(before).dom()
    &&& forall|x: u16, y: u16| #[trigger]
        crate::canvas::cells(before).contains_key((x, y)) ==> crate::canvas::cells(after)[(x, y)]
            == if crate::canvas::inside(area, x as int, y as int) {
            half_block(
                shader,
                crate::canvas::cells(before)[(x, y)],
                strokes,
                x - area.x,
                y - area.y,
            )
        } else {
            crate::canvas::cells(before)[(x, y)]
        }
}

/// The pixels hold what the strokes leave on top, quantized.
spec fn layered<S: Shader>(
    shader: S,
    px: Seq<Option<[u8; 3]>>,
    strokes: Seq<Covered>,
    w: int,
    h: int,
) -> bool {
    &&& px.len() == w * (2 * h)
    &&& forall|x: int, y: int|
        #![trigger topmost(strokes, x, y)]
        #![trigger px[y * w + x]]
        0 <= x < w && 0 <= y < 2 * h ==> pixel_shows(
            shader,
            px[y * w + x],
            topmost(strokes, x, y),
            x,
            y,
        )
}

/// A pixel holds the quantized shade of a sample, or nothing where there is none.
spec fn pixel_shows<S: Shader>(
    shader: S,
    px: Option<[u8; 3]>,
    top: Option<ShadeSample>,
    x: int,
    y: int,
) -> bool {
    match (px, top) {
        (Some(c), Some(s)) => crate::canvas::Paint::Rgb(c[0], c[1], c[2]) == tint(
            shader.shaded(s),
            x,
            y,
        ),
        (None, None) => true,
        _ => false,
    }
}

/// One more stroke shows on its own pixel and nowhere else.
proof fn lemma_topmost_push(strokes: Seq<Covered>, s: Covered)
    ensures
        forall|x: int, y: int| #[trigger]
            topmost(strokes.push(s), x, y) == if s.x == x && s.y == y {
                Some(s.sample)
            } else {
                topmost(strokes, x, y)
            },
{
    assert(strokes.push(s).drop_last() =~= strokes);
    assert(strokes.push(s).last() == s);
}

impl<S: Shader> ColorRenderer<S> {
    /// The shader.
    pub closed spec fn shading(self) -> S {
        self.shader
    }

    /// A color renderer with a custom [`Shader`].
    pub fn with_shader(shader: S) -> (r: Self)
        ensures
            r.shading() == shader,
    {
        ColorRenderer { shader }
    }

    /// Paint one stroke; one that lies off the grid is ignored.
    fn stroke(
        &self,
        px: &mut Vec<Option<[u8; 3]>>,
        w: usize,
        h: usize,
        s: Covered,
        Ghost(strokes): Ghost<Seq<Covered>>,
    )
        requires
            h <= 0xFFFF,
            w * (2 * h) <= usize::MAX,
            layered(self.shader, old(px)@, strokes, w as int, h as int),
        ensures
            layered(self.shader, final(px)@, strokes.push(s), w as int, h as int),
    {
        proof {
            lemma_topmost_push(strokes, s);
        }
        if s.x >= w || s.y >= 2 * h {
            return;
        }
        proof {
            crate::canvas::lemma_places(w as int, 2 * h as int, s.x as int, s.y as int, 0, 0);
            assert(0 <= s.y * w) by (nonlinear_arith);
        }
        let place: usize = s.y * w + s.x;
        let shade: [Binary64; 3] = self.shader.shade(s.sample);
        let rgb: [u8; 3] = quantize(shade, s.x, s.y);
        let ghost before = px@;
        px.set(place, Some(rgb));
        proof {
            let now = px@;
            let after = strokes.push(s);
            assert forall|x: int, y: int|
                #![trigger topmost(after, x, y)]
                #![trigger now[y * w + x]]
                0 <= x < w && 0 <= y < 2 * h implies pixel_shows(
                self.shader,
                now[y * w + x],
                topmost(after, x, y),
                x,
                y,
            ) by {
                crate::canvas::lemma_places(w as int, 2 * h as int, x, y, s.x as int, s.y as int);
                assert(pixel_shows(self.shader, before[y * w + x], topmost(strokes, x, y), x, y));
                assert(rgb[0] == crate::dither::channel(
                    shade[0],
                    crate::dither::bayer(s.x as int, s.y as int),
                ));
            }
        }
    }

    /// Set the pixel under a point at full intensity.
    fn plot_point(
        &self,
        px: &mut Vec<Option<[u8; 3]>>,
        w: usize,
        h: usize,
        p: Sample,
        Ghost(strokes): Ghost<Seq<Covered>>,
    )
        requires
            w <= 0xFFFF,
            h <= 0xFFFF,
            w * (2 * h) <= usize::MAX,
            layered(self.shader, old(px)@, strokes, w as int, h as int),
        ensures
            layered(
                self.shader,
                final(px)@,
                strokes + body_strokes(
                    RenderBody { col: p.col, row: p.row, kind: RenderKind::Point },
                    Seq::empty(),
                    w as int,
                    h as int,
                ),
                w as int,
                h as int,
            ),
    {
        let zero: Binary64 = Binary64::from_bits(0);
        assert(strokes + Seq::empty() =~= strokes);
        if !p.col.is_finite() || !p.row.is_finite() || p.col.lt(zero) || p.row.lt(zero) {
            return;
        }
        let x: u64 = p.col.floor_shl(0);
        let y: u64 = p.row.floor_shl(1);
        if x >= w as u64 || y >= 2 * h as u64 {
            return;
        }
        let s: Covered = Covered {
            x: x as usize,
            y: y as usize,
            sample: ShadeSample {
                lambert: Binary64::from_bits(crate::binary64::ONE),
                u: zero,
                v: zero,
            },
        };
        self.stroke(px, w, h, s, Ghost(strokes));
        assert(strokes.push(s) =~= strokes + seq![s]);
    }

    /// Paint every probe of a fill that lies on its silhouette.
    fn fill(
        &self,
        px: &mut Vec<Option<[u8; 3]>>,
        w: usize,
        h: usize,
        fill: &Vec<PixelProbe>,
        Ghost(strokes): Ghost<Seq<Covered>>,
    )
        requires
            h <= 0xFFFF,
            w * (2 * h) <= usize::MAX,
            layered(self.shader, old(px)@, strokes, w as int, h as int),
        ensures
            layered(
                self.shader,
                final(px)@,
                strokes + covered(fill@, fill@.len() as int),
                w as int,
                h as int,
            ),
    {
        let mut k: usize = 0;
        assert(strokes + covered(fill@, 0) =~= strokes);
        while k < fill.len()
            invariant
                h <= 0xFFFF,
                w * (2 * h) <= usize::MAX,
                k <= fill@.len(),
                layered(self.shader, px@, strokes + covered(fill@, k as int), w as int, h as int),
            decreases fill@.len() - k,
        {
            let probe: PixelProbe = fill[k];
            if is_on_silhouette(probe.rho2) {
                self.stroke(px, w, h, probe.at, Ghost(strokes + covered(fill@, k as int)));
                assert((strokes + covered(fill@, k as int)).push(probe.at) =~= strokes + covered(
                    fill@,
                    k + 1,
                ));
            }
            k = k + 1;
        }
    }

    /// Pixels without a stroke.
    fn no_pixels(&self, w: usize, h: usize) -> (r: Vec<Option<[u8; 3]>>)
        requires
            w <= 0xFFFF,
            h <= 0xFFFF,
            w * (2 * h) <= usize::MAX,
        ensures
            layered(self.shader, r@, Seq::empty(), w as int, h as int),
    {
        let n: usize = w * (2 * h);
        let mut r: Vec<Option<[u8; 3]>> = Vec::new();
        let mut i: usize = 0;
        while i < n
            invariant
                i <= n,
                r@.len() == i,
                forall|j: int| 0 <= j < i ==> (#[trigger] r@[j]) is None,
            decreases n - i,
        {
            r.push(None);
            i = i + 1;
        }
        proof {
            assert forall|x: int, y: int|
                #![trigger topmost(Seq::empty(), x, y)]
                #![trigger r@[y * w + x]]
                0 <= x < w && 0 <= y < 2 * h implies pixel_shows(
                self.shader,
                r@[y * w + x],
                topmost(Seq::empty(), x, y),
                x,
                y,
            ) by {
                crate::canvas::lemma_places(w as int, 2 * h as int, x, y, 0, 0);
            }
        }
        r
    }

    /// Compose one cell from its two pixels.
    fn compose(
        &self,
        buf: &mut Buffer,
        x: u16,
        y: u16,
        upper: Option<[u8; 3]>,
        lower: Option<[u8; 3]>,
        Ghost(strokes): Ghost<Seq<Covered>>,
        Ghost(cx): Ghost<int>,
        Ghost(cy): Ghost<int>,
    )
        requires
            crate::canvas::cells(*old(buf)).contains_key((x, y)),
            pixel_shows(self.shader, upper, topmost(strokes, cx, 2 * cy), cx, 2 * cy),
            pixel_shows(self.shader, lower, topmost(strokes, cx, 2 * cy + 1), cx, 2 * cy + 1),
        ensures
            crate::canvas::buffer_area(*final(buf)) == crate::canvas::buffer_area(*old(buf)),
            crate::canvas::cells(*final(buf)) == crate::canvas::cells(*old(buf)).insert(
                (x, y),
                half_block(
                    self.shader,
                    crate::canvas::cells(*old(buf))[(x, y)],
                    strokes,
                    cx,
                    cy,
                ),
            ),
    {
        match (upper, lower) {
            (None, None) => {},
            (Some(t), None) => {
                set_char(buf, x, y, '\u{2580}');
                set_fg(buf, x, y, t[0], t[1], t[2]);
            },
            (None, Some(b)) => {
                set_char(buf, x, y, '\u{2584}');
                set_fg(buf, x, y, b[0], b[1], b[2]);
            },
            (Some(t), Some(b)) => {
                set_char(buf, x, y, '\u{2580}');
                set_fg(buf, x, y, t[0], t[1], t[2]);
                set_bg(buf, x, y, b[0], b[1], b[2]);
            },
        }
        assert(crate::canvas::cells(*buf) =~= crate::canvas::cells(*old(buf)).insert(
            (x, y),
            half_block(self.shader, crate::canvas::cells(*old(buf))[(x, y)], strokes, cx, cy),
        ));
    }

    /// Compose every cell of the area from the pixels.
    fn paint(
        &self,
        buf: &mut Buffer,
        px: &Vec<Option<[u8; 3]>>,
        area: Rect,
        Ghost(strokes): Ghost<Seq<Covered>>,
    )
        requires
            pixels_fit(area),
            layered(self.shader, px@, strokes, area.width as int, area.height as int),
            crate::canvas::covers(*old(buf), area),
        ensures
            shaded_into(self.shader, *old(buf), *final(buf), strokes, area),
    {
        let (w, h): (usize, usize) = (area.width as usize, area.height as usize);
        let ghost first = crate::canvas::cells(*buf);
        let mut cy: usize = 0;
        while cy < h
            invariant
                w == area.width,
                h == area.height,
                cy <= h,
                w * (2 * h) <= usize::MAX,
                layered(self.shader, px@, strokes, w as int, h as int),
                crate::canvas::covers(*old(buf), area),
                first == crate::canvas::cells(*old(buf)),
                crate::canvas::buffer_area(*buf) == crate::canvas::buffer_area(*old(buf)),
                crate::canvas::cells(*buf).dom() == first.dom(),
                forall|x: u16, y: u16| #[trigger]
                    first.contains_key((x, y)) ==> crate::canvas::cells(*buf)[(x, y)] == if crate::canvas::inside(
                        area,
                        x as int,
                        y as int,
                    ) && y - area.y < cy {
                        half_block(self.shader, first[(x, y)], strokes, x - area.x, y - area.y)
                    } else {
                        first[(x, y)]
                    },
            decreases h - cy,
        {
            let mut cx: usize = 0;
            while cx < w
                invariant
                    w == area.width,
                    h == area.height,
                    cy < h,
                    cx <= w,
                    w * (2 * h) <= usize::MAX,
                    layered(self.shader, px@, strokes, w as int, h as int),
                    crate::canvas::covers(*old(buf), area),
                    first == crate::canvas::cells(*old(buf)),
                    crate::canvas::buffer_area(*buf) == crate::canvas::buffer_area(*old(buf)),
                    crate::canvas::cells(*buf).dom() == first.dom(),
                    forall|x: u16, y: u16| #[trigger]
                        first.contains_key((x, y)) ==> crate::canvas::cells(*buf)[(x, y)] == if crate::canvas::inside(
                            area,
                            x as int,
                            y as int,
                        ) && (y - area.y < cy || (y - area.y == cy && x - area.x < cx)) {
                            half_block(self.shader, first[(x, y)], strokes, x - area.x, y - area.y)
                        } else {
                            first[(x, y)]
                        },
                decreases w - cx,
            {
                proof {
                    crate::canvas::lemma_places(w as int, 2 * h as int, cx as int, 2 * cy as int, 0, 0);
                    crate::canvas::lemma_places(w as int, 2 * h as int, cx as int, 2 * cy + 1, 0, 0);
                    assert(0 <= (2 * cy) * w) by (nonlinear_arith);
                    assert(0 <= (2 * cy + 1) * w) by (nonlinear_arith);
                }
                let upper: Option<[u8; 3]> = px[(2 * cy) * w + cx];
                let lower: Option<[u8; 3]> = px[(2 * cy + 1) * w + cx];
                proof {
                    let (ux, uy) = (cx as int, 2 * cy as int);
                    assert(pixel_shows(
                        self.shader,
                        px@[uy * w + ux],
                        topmost(strokes, ux, uy),
                        ux,
                        uy,
                    ));
                    let vy = 2 * cy + 1;
                    assert(pixel_shows(
                        self.shader,
                        px@[vy * w + ux],
                        topmost(strokes, ux, vy),
                        ux,
                        vy,
                    ));
                }
                let (x, y): (u16, u16) = (area.x + cx as u16, area.y + cy as u16);
                assert(first.contains_key((x, y))) by {
                    assert(crate::canvas::inside(area, x as int, y as int));
                }
                self.compose(
                    buf,
                    x,
                    y,
                    upper,
                    lower,
                    Ghost(strokes),
                    Ghost(cx as int),
                    Ghost(cy as int),
                );
                assert(crate::canvas::cells(*buf).dom() =~= first.dom());
                cx = cx + 1;
            }
            cy = cy + 1;
        }
    }

    /// Draw `bodies` into `buf`, later ones over earlier ones: a point sets the pixel under its
    /// centre, an ellipsoid those of its probes, in `fills`, that lie on its silhouette, each in
    /// the colour that the shader gives it, dithered to eight bits. A degenerate ellipsoid sets
    /// none, and cells without a painted pixel stay as they were.
    pub fn draw_bodies(
        &self,
        bodies: &Vec<RenderBody>,
        fills: &Vec<Vec<PixelProbe>>,
        area: Rect,
        buf: &mut Buffer,
    )
        requires
            fills@.len() == bodies@.len(),
            pixels_fit(area),
            crate::canvas::covers(*old(buf), area),
        ensures
            shaded_into(
                self.shading(),
                *old(buf),
                *final(buf),
                all_strokes(
                    bodies@,
                    crate::renderer::views(fills@),
                    bodies@.len() as int,
                    area.width as int,
                    area.height as int,
                ),
                area,
            ),
    {
        let (w, h): (usize, usize) = (area.width as usize, area.height as usize);
        let mut px: Vec<Option<[u8; 3]>> = self.no_pixels(w, h);
        let mut n: usize = 0;
        while n < bodies.len()
            invariant
                w == area.width,
                h == area.height,
                w * (2 * h) <= usize::MAX,
                n <= bodies@.len(),
                fills@.len() == bodies@.len(),
                layered(
                    self.shader,
                    px@,
                    all_strokes(bodies@, crate::renderer::views(fills@), n as int, w as int, h as int),
                    w as int,
                    h as int,
                ),
            decreases bodies@.len() - n,
        {
            let b: RenderBody = bodies[n];
            let ghost strokes = all_strokes(bodies@, crate::renderer::views(fills@), n as int, w as int, h as int);
            match b.kind {
                RenderKind::Point => {
                    self.plot_point(
                        &mut px,
                        w,
                        h,
                        Sample { col: b.col, row: b.row },
                        Ghost(strokes),
                    );
                },
                RenderKind::Ellipsoid { .. } => {
                    assert(strokes + Seq::empty() =~= strokes);
                    if b.is_fillable() {
                        self.fill(&mut px, w, h, &fills[n], Ghost(strokes));
                    }
                },
            }
            n = n + 1;
        }
        self.paint(
            buf,
            &px,
            area,
            Ghost(all_strokes(bodies@, crate::renderer::views(fills@), bodies@.len() as int, w as int, h as int)),
        );
    }

    /// Draw `bodies` where the area's pixels can be counted and the buffer holds every cell of it,
    /// and say whether that is so; where it is not, the buffer is left as it was.
    pub fn try_draw_bodies(
        &self,
        bodies: &Vec<RenderBody>,
        fills: &Vec<Vec<PixelProbe>>,
        area: Rect,
        buf: &mut Buffer,
    ) -> (r: bool)
        requires
            fills@.len() == bodies@.len(),
        ensures
            r == (pixels_fit(area) && crate::canvas::covers(*old(buf), area)),
            r ==> shaded_into(
                self.shading(),
                *old(buf),
                *final(buf),
                all_strokes(
                    bodies@,
                    crate::renderer::views(fills@),
                    bodies@.len() as int,
                    area.width as int,
                    area.height as int,
                ),
                area,
            ),
            !r ==> *final(buf) == *old(buf),
    {
        if !has_room(area) || !holds(buf, area) {
            return false;
        }
        self.draw_bodies(bodies, fills, area, buf);
        true
    }

    /// Draw bare points, later ones over earlier ones.
    pub fn draw_points(&self, points: &Vec<Sample>, area: Rect, buf: &mut Buffer)
        requires
            pixels_fit(area),
            crate::canvas::covers(*old(buf), area),
        ensures
            shaded_into(
                self.shading(),
                *old(buf),
                *final(buf),
                point_strokes(
                    points@,
                    points@.len() as int,
                    area.width as int,
                    area.height as int,
                ),
                area,
            ),
    {
        let (w, h): (usize, usize) = (area.width as usize, area.height as usize);
        let mut px: Vec<Option<[u8; 3]>> = self.no_pixels(w, h);
        let mut n: usize = 0;
        while n < points.len()
            invariant
                w == area.width,
                h == area.height,
                w * (2 * h) <= usize::MAX,
                n <= points@.len(),
                layered(
                    self.shader,
                    px@,
                    point_strokes(points@, n as int, w as int, h as int),
                    w as int,
                    h as int,
                ),
            decreases points@.len() - n,
        {
            self.plot_point(
                &mut px,
                w,
                h,
                points[n],
                Ghost(point_strokes(points@, n as int, w as int, h as int)),
            );
            n = n + 1;
        }
        self.paint(
            buf,
            &px,
            area,
            Ghost(point_strokes(points@, points@.len() as int, w as int, h as int)),
        );
    }

    /// Draw bare points where the area's pixels can be counted and the buffer holds every cell of
    /// it, and say whether that is so; where it is not, the buffer is left as it was.
    pub fn try_draw_points(&self, points: &Vec<Sample>, area: Rect, buf: &mut Buffer) -> (r: bool)
        ensures
            r == (pixels_fit(area) && crate::canvas::covers(*old(buf), area)),
            r ==> shaded_into(
                self.shading(),
                *old(buf),
                *final(buf),
                point_strokes(
                    points@,
                    points@.len() as int,
                    area.width as int,
                    area.height as int,
                ),
                area,
            ),
            !r ==> *final(buf) == *old(buf),
    {
        if !has_room(area) || !holds(buf, area) {
            return false;
        }
        self.draw_points(points, area, buf);
        true
    }
}

/// The strokes of the first `n` bare points, in order.
pub open spec fn point_strokes(points: Seq<Sample>, n: int, w: int, h: int) -> Seq<Covered>
    decreases n,
{
    if n <= 0 {
        Seq::empty()
    } else {
        point_strokes(points, n - 1, w, h) + body_strokes(
            RenderBody { col: points[n - 1].col, row: points[n - 1].row, kind: RenderKind::Point },
            Seq::empty(),
            w,
            h,
        )
    }
}

impl ColorRenderer<LambertGray> {
    /// A color renderer with the default neutral-sphere shader.
    pub fn new() -> (r: Self)
        ensures
            r.shading() == LambertGray,
    {
        ColorRenderer { shader: LambertGray }
    }
}

impl Default for ColorRenderer<LambertGray> {
    /// A color renderer with the default neutral-sphere shader.
    fn default() -> (r: Self)
        ensures
            r.shading() == LambertGray,
    {
        ColorRenderer { shader: LambertGray }
    }
}

/// A later stroke on a pixel hides the earlier ones there, and only there.
pub proof fn law_painters_order(strokes: Seq<Covered>, s: Covered, x: int, y: int)
    ensures
        topmost(strokes.push(s), s.x as int, s.y as int) == Some(s.sample),
        (x, y) != (s.x as int, s.y as int) ==> topmost(strokes.push(s), x, y) == topmost(
            strokes,
            x,
            y,
        ),
{
    lemma_topmost_push(strokes, s);
}

/// A point sets the pixel that it lies in: its column lies between `x` and `x + 1`, and twice its
/// row between `y` and `y + 1`. It sets one exactly when it lies in the grid.
pub proof fn law_pixel_lies_under_its_point(s: Sample, w: int, h: int, x: int, y: int)
    requires
        w >= 0,
        h >= 0,
    ensures
        pixel_of(s, w, h) is Some <==> crate::binary64::between(s.col, 0, w, 1)
            && crate::binary64::between(s.row, 0, h, 1),
        pixel_of(s, w, h) == Some((x, y)) <==> 0 <= x < w && 0 <= y < 2 * h
            && crate::binary64::between(s.col, x, x + 1, 1) && crate::binary64::between(
            s.row,
            y,
            y + 1,
            2,
        ),
{
    let zero = Binary64 { bits: 0 };
    let one = pow2(1074) as int;
    vstd::arithmetic::power2::lemma2_to64();
    vstd::arithmetic::power2::lemma_pow2_pos(1074);
    crate::binary64::lemma_one();
    if crate::binary64::finite(s.col) {
        crate::binary64::law_rank_orders_values(s.col, zero);
        if !crate::binary64::less(s.col, zero) {
            crate::binary64::lemma_floor_between(s.col, 0, 1);
            let c = crate::binary64::scaled(s.col);
            assert(crate::binary64::floor_shifted(s.col, 0) < w <==> 1 * c < w * pow2(1074));
        } else {
            assert(x >= 0 ==> x * one >= 0) by (nonlinear_arith)
                requires
                    one > 0,
            ;
        }
    }
    if crate::binary64::finite(s.row) {
        crate::binary64::law_rank_orders_values(s.row, zero);
        if !crate::binary64::less(s.row, zero) {
            crate::binary64::lemma_floor_between(s.row, 1, 2);
            let r = crate::binary64::scaled(s.row);
            assert(crate::binary64::floor_shifted(s.row, 1) < 2 * h <==> 2 * r < (2 * h) * pow2(
                1074,
            ));
            assert((2 * h) * one == 2 * (h * one)) by (nonlinear_arith);
        } else {
            assert(y >= 0 ==> y * one >= 0) by (nonlinear_arith)
                requires
                    one > 0,
            ;
        }
    }
}

/// The last stroke on a pixel shows there; a pixel without a stroke shows none.
pub proof fn law_last_stroke_shows(strokes: Seq<Covered>, x: int, y: int, k: int)
    ensures
        0 <= k < strokes.len() && strokes[k].x == x && strokes[k].y == y && (forall|j: int|
            k < j < strokes.len() ==> (#[trigger] strokes[j]).x != x || strokes[j].y != y)
            ==> topmost(strokes, x, y) == Some(strokes[k].sample),
        (forall|j: int|
            0 <= j < strokes.len() ==> (#[trigger] strokes[j]).x != x || strokes[j].y != y)
            ==> topmost(strokes, x, y) is None,
    decreases strokes.len(),
{
    if strokes.len() > 0 {
        let t = strokes.drop_last();
        law_last_stroke_shows(t, x, y, k);
        assert(strokes.last() == strokes[strokes.len() - 1]);
        assert forall|j: int| 0 <= j < t.len() implies #[trigger] t[j] == strokes[j] by {}
    }
}

/// A body that sets a pixel is seen there over all that were drawn before it: a point with full
/// intensity, an ellipsoid with the sample of its last probe of that pixel that lies at most one
/// from its centre. Where it sets none, what was drawn before is seen.
#[verifier::rlimit(30)]
pub proof fn law_latest_body_is_on_top(
    bodies: Seq<RenderBody>,
    fills: Seq<Seq<PixelProbe>>,
    n: int,
    w: int,
    h: int,
    x: int,
    y: int,
    k: int,
)
    requires
        0 < n <= bodies.len(),
        0 <= w <= 0xFFFF,
        0 <= h <= 0xFFFF,
        0 <= x < w,
        0 <= y < 2 * h,
    ensures
        ({
            let b = bodies[n - 1];
            let fill = fills[n - 1];
            let seen = topmost(all_strokes(bodies, fills, n, w, h), x, y);
            let under = topmost(all_strokes(bodies, fills, n - 1, w, h), x, y);
            let solid = crate::render::positive(b.kind->semi_major) && crate::render::positive(
                b.kind->semi_minor,
            ) && crate::binary64::finite(b.col) && crate::binary64::finite(b.row)
                && crate::binary64::finite(b.kind->tilt);
            let hit = |j: int|
                0 <= j < fill.len() && fill[j].at.x == x && fill[j].at.y == y
                    && crate::render::one_at_most(fill[j].rho2);
            &&& b.kind is Point && crate::binary64::between(b.col, x, x + 1, 1)
                && crate::binary64::between(b.row, y, y + 1, 2) ==> (seen matches Some(s)
                && crate::binary64::finite(s.lambert) && crate::binary64::scaled(s.lambert) == pow2(
                1074,
            ) && crate::binary64::scaled(s.u) == 0 && crate::binary64::scaled(s.v) == 0)
            &&& b.kind is Point && !(crate::binary64::between(b.col, x, x + 1, 1)
                && crate::binary64::between(b.row, y, y + 1, 2)) ==> seen == under
            &&& b.kind is Ellipsoid && !solid ==> seen == under
            &&& b.kind is Ellipsoid && solid && hit(k) && (forall|j: int|
                k < j < fill.len() ==> !#[trigger] hit(j)) ==> seen == Some(fill[k].at.sample)
            &&& b.kind is Ellipsoid && (forall|j: int| !#[trigger] hit(j)) ==> seen == under
        }),
{
    let b = bodies[n - 1];
    let fill = fills[n - 1];
    let before = all_strokes(bodies, fills, n - 1, w, h);
    let own = body_strokes(b, fill, w, h);
    crate::binary64::lemma_one();
    crate::render::law_fillable_bodies(b);
    lemma_topmost_concat(before, own, x, y);
    if b.kind is Point {
        let s = Sample { col: b.col, row: b.row };
        law_pixel_lies_under_its_point(s, w, h, x, y);
        match pixel_of(s, w, h) {
            Some((px, py)) => {
                law_pixel_lies_under_its_point(s, w, h, px, py);
                law_last_stroke_shows(own, x, y, 0);
                assert(own.len() == 1);
                assert(own[0].x == px && own[0].y == py);
            },
            None => {
                law_last_stroke_shows(own, x, y, 0);
            },
        }
    } else if crate::render::fillable(b) {
        lemma_topmost_covered(fill, fill.len() as int, x, y, k);
        let hit = |j: int|
            0 <= j < fill.len() && fill[j].at.x == x && fill[j].at.y == y
                && crate::render::one_at_most(fill[j].rho2);
        if forall|j: int| !#[trigger] hit(j) {
            assert forall|j: int| 0 <= j < fill.len() implies !probe_sets(
                #[trigger] fill[j],
                x,
                y,
            ) by {
                assert(!hit(j));
            }
        }
        if hit(k) && forall|j: int| k < j < fill.len() ==> !#[trigger] hit(j) {
            assert forall|j: int| k < j < fill.len() implies !probe_sets(
                #[trigger] fill[j],
                x,
                y,
            ) by {
                assert(!hit(j));
            }
        }
    } else {
        law_last_stroke_shows(own, x, y, 0);
    }
}

/// The probe is of pixel `(x, y)` and lies on the silhouette.
spec fn probe_sets(p: PixelProbe, x: int, y: int) -> bool {
    p.at.x == x && p.at.y == y && crate::render::one_at_most(p.rho2)
}

/// What shows of two lists of strokes, one after the other.
proof fn lemma_topmost_concat(a: Seq<Covered>, b: Seq<Covered>, x: int, y: int)
    ensures
        topmost(a + b, x, y) == match topmost(b, x, y) {
            Some(s) => Some(s),
            None => topmost(a, x, y),
        },
    decreases b.len(),
{
    if b.len() == 0 {
        assert(a + b =~= a);
    } else {
        assert((a + b).drop_last() =~= a + b.drop_last());
        assert((a + b).last() == b.last());
        lemma_topmost_concat(a, b.drop_last(), x, y);
    }
}

/// What shows of the first `n` probes: the last that sets the pixel.
proof fn lemma_topmost_covered(fill: Seq<PixelProbe>, n: int, x: int, y: int, k: int)
    requires
        0 <= n <= fill.len(),
    ensures
        0 <= k < n && probe_sets(fill[k], x, y) && (forall|j: int|
            k < j < n ==> !probe_sets(#[trigger] fill[j], x, y)) ==> topmost(
            covered(fill, n),
            x,
            y,
        ) == Some(fill[k].at.sample),
        (forall|j: int| 0 <= j < n ==> !probe_sets(#[trigger] fill[j], x, y)) ==> topmost(
            covered(fill, n),
            x,
            y,
        ) is None,
    decreases n,
{
    if n > 0 {
        lemma_topmost_covered(fill, n - 1, x, y, k);
        crate::render::law_silhouette_ends_at_one(fill[n - 1].rho2);
        if crate::render::on_silhouette(fill[n - 1].rho2) {
            lemma_topmost_push(covered(fill, n - 1), fill[n - 1].at);
        }
    }
}

/// The colour that a cell shows in its upper or its lower half, where it holds a half block: the
/// filled half has the foreground's, the other the background's.
pub open spec fn half_colour(
    cell: crate::canvas::CellModel,
    lower: bool,
) -> Option<crate::canvas::Paint> {
    if cell.symbol == seq!['\u{2580}'] {
        Some(if lower { cell.bg } else { cell.fg })
    } else if cell.symbol == seq!['\u{2584}'] {
        Some(if lower { cell.fg } else { cell.bg })
    } else {
        None
    }
}

/// Each half of a cell shows the pixel painted there, in the colour that the shader gives what is
/// on top, quantized at that pixel. A half with nothing painted keeps the cell's background, and a
/// cell with nothing painted stays as it was.
pub proof fn law_halves_show_their_pixels<S: Shader>(
    shader: S,
    before: crate::canvas::CellModel,
    strokes: Seq<Covered>,
    cx: int,
    cy: int,
    lower: bool,
)
    ensures
        ({
            let after = half_block(shader, before, strokes, cx, cy);
            let row = if lower { 2 * cy + 1 } else { 2 * cy };
            let other = if lower { 2 * cy } else { 2 * cy + 1 };
            &&& topmost(strokes, cx, row) matches Some(s) ==> half_colour(after, lower) == Some(
                tint(shader.shaded(s), cx, row),
            )
            &&& topmost(strokes, cx, row) is None && topmost(strokes, cx, other) is Some
                ==> half_colour(after, lower) == Some(before.bg)
            &&& topmost(strokes, cx, row) is None && topmost(strokes, cx, other) is None ==> after
                == before
            &&& topmost(strokes, cx, row) is None ==> after.bg == before.bg
            &&& topmost(strokes, cx, row) is Some && topmost(strokes, cx, other) is Some
                ==> after.symbol == seq!['\u{2580}']
        }),
{
    let (u, l) = (seq!['\u{2580}'], seq!['\u{2584}']);
    assert(u[0] != l[0]);
}

/// A colour is quantized channel by channel, each against the threshold of the pixel.
pub proof fn law_tint_quantizes_each_channel(rgb: [Binary64; 3], x: int, y: int)
    requires
        x >= 0,
        y >= 0,
    ensures
        ({
            let t = 4 * crate::dither::bayer_two(x, y) + crate::dither::bayer_two(x / 2, y / 2);
            tint(rgb, x, y) matches crate::canvas::Paint::Rgb(r, g, b) && r
                == crate::dither::channel(rgb[0], t) && g == crate::dither::channel(rgb[1], t) && b
                == crate::dither::channel(rgb[2], t)
        }),
{
    crate::dither::law_thresholds_nest(x, y);
    let t = crate::dither::bayer(x, y);
    crate::dither::law_channel_rounds_by_the_threshold(rgb[0], t);
    crate::dither::law_channel_rounds_by_the_threshold(rgb[1], t);
    crate::dither::law_channel_rounds_by_the_threshold(rgb[2], t);
}

/// Painting changes nothing outside the area, and in it each cell by the strokes on its own two
/// pixels, counted from the area's corner.
pub proof fn law_cells_are_painted_in_place<S: Shader>(
    shader: S,
    before: Buffer,
    after: Buffer,
    strokes: Seq<Covered>,
    area: Rect,
    x: u16,
    y: u16,
)
    requires
        shaded_into(shader, before, after, strokes, area),
        crate::canvas::cells(before).contains_key((x, y)),
    ensures
        crate::canvas::cells(after).contains_key((x, y)),
        x < area.x || x >= area.x + area.width || y < area.y || y >= area.y + area.height
            ==> crate::canvas::cells(after)[(x, y)] == crate::canvas::cells(before)[(x, y)],
        area.x <= x < area.x + area.width && area.y <= y < area.y + area.height
            ==> crate::canvas::cells(after)[(x, y)] == half_block(
            shader,
            crate::canvas::cells(before)[(x, y)],
            strokes,
            x - area.x,
            y - area.y,
        ),
{
}

/// The default shader is neutral: every channel has the intensity of the sphere at the sample.
pub proof fn law_default_shader_is_neutral(sample: ShadeSample, i: int)
    requires
        0 <= i < 3,
    ensures
        LambertGray.shaded(sample)[i] == sample.lambert,
{
}

} // verus!
