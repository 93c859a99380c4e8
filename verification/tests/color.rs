//! The half-block colour backend: which pixels a picture paints, in what colour.

use std::f64::consts::FRAC_PI_6;

use astrotui::binary64::Binary64;
use astrotui::braille::Sample;
use astrotui::color::{ColorRenderer, Covered, LambertGray, PixelProbe, ShadeSample, Shader};
use astrotui::dither::quantize;
use astrotui::render::{Rect, RenderBody, RenderKind};
use astrotui::renderer::Renderer;
use ratatui::buffer::Buffer;
use ratatui::style::Color;

/// Terminal cells are about twice as tall as wide.
const CELL_ASPECT: f64 = 2.0;

fn num(x: f64) -> Binary64 {
    Binary64::from_bits(x.to_bits())
}

fn float(b: Binary64) -> f64 {
    f64::from_bits(b.to_bits())
}

fn rect(x: u16, y: u16, width: u16, height: u16) -> Rect {
    Rect { x, y, width, height }
}

fn blank(area: Rect) -> Buffer {
    Buffer::empty(ratatui::layout::Rect::new(area.x, area.y, area.width, area.height))
}

fn samples(points: &[(f64, f64)]) -> Vec<Sample> {
    points.iter().map(|&(col, row)| Sample { col: num(col), row: num(row) }).collect()
}

/// The pixels at whose centres a silhouette is probed, with where on the body each lies.
fn pixel_fill(body: &RenderBody, area: Rect) -> Vec<PixelProbe> {
    let mut out = Vec::new();
    let RenderKind::Ellipsoid { semi_major, semi_minor, tilt } = body.kind else {
        return out;
    };
    if !body.is_fillable() {
        return out;
    }
    let (cx, cy) = (float(body.col), float(body.row));
    let (a, b) = (float(semi_major), float(semi_minor));
    let (sin_t, cos_t) = float(tilt).sin_cos();
    let rcol = a.max(b);
    let rrow = rcol / CELL_ASPECT;
    let x_lo = ((cx - rcol).floor().max(0.0)) as usize;
    let x_hi = ((cx + rcol).ceil().min(f64::from(area.width))).max(0.0) as usize;
    let y_lo = (((cy - rrow) * 2.0).floor().max(0.0)) as usize;
    let y_hi = (((cy + rrow) * 2.0).ceil().min(f64::from(area.height) * 2.0)).max(0.0) as usize;
    for y in y_lo..y_hi {
        for x in x_lo..x_hi {
            let dx = (x as f64 + 0.5) - cx;
            let dy = ((y as f64 + 0.5) / 2.0 - cy) * CELL_ASPECT;
            let u = (dx * cos_t + dy * sin_t) / a;
            let v = (-dx * sin_t + dy * cos_t) / b;
            let rho2 = u * u + v * v;
            let lambert = num((1.0 - rho2).sqrt());
            let at = Covered { x, y, sample: ShadeSample { lambert, u: num(u), v: num(v) } };
            out.push(PixelProbe { at, rho2: num(rho2) });
        }
    }
    out
}

fn draw<S: Shader>(r: &ColorRenderer<S>, bodies: &[RenderBody], area: Rect, buf: &mut Buffer) {
    let fills: Vec<Vec<PixelProbe>> = bodies.iter().map(|b| pixel_fill(b, area)).collect();
    r.draw_bodies(&bodies.to_vec(), &fills, area, buf);
}

fn render_bodies(bodies: &[RenderBody], area: Rect) -> Buffer {
    let mut buf = blank(area);
    draw(&ColorRenderer::new(), bodies, area, &mut buf);
    buf
}

fn point(col: f64, row: f64) -> RenderBody {
    RenderBody { col: num(col), row: num(row), kind: RenderKind::Point }
}

fn ellipsoid(col: f64, row: f64, a: f64, b: f64, tilt: f64) -> RenderBody {
    RenderBody {
        col: num(col),
        row: num(row),
        kind: RenderKind::Ellipsoid {
            semi_major: num(a),
            semi_minor: num(b),
            tilt: num(tilt),
        },
    }
}

/// The two half-block pixels of a cell as `(top, bottom)`, decoded from what the renderer wrote.
fn cell_pixels(buf: &Buffer, x: u16, y: u16) -> (Option<[u8; 3]>, Option<[u8; 3]>) {
    let cell = &buf[(x, y)];
    let chan = |c: Color| match c {
        Color::Rgb(r, g, b) => Some([r, g, b]),
        _ => None,
    };
    match cell.symbol() {
        "▀" => (chan(cell.fg), chan(cell.bg)),
        "▄" => (None, chan(cell.fg)),
        _ => (None, None),
    }
}

/// Two text rows per cell row, darkest to brightest.
fn pixels_to_text(buf: &Buffer, area: Rect) -> String {
    let ramp: &[u8] = b" .:-=+*#%@";
    let mut out = String::new();
    for y in 0..area.height {
        let mut rows = [String::new(), String::new()];
        for x in 0..area.width {
            let (top, bottom) = cell_pixels(buf, area.x + x, area.y + y);
            for (row, p) in rows.iter_mut().zip([top, bottom]) {
                let ch = match p {
                    None => ' ',
                    Some([r, g, b]) => {
                        let lum = (u32::from(r) + u32::from(g) + u32::from(b)) / 3;
                        ramp[(lum as usize * (ramp.len() - 1)) / 255] as char
                    }
                };
                row.push(ch);
            }
        }
        for row in rows {
            out.push_str(&row);
            out.push('\n');
        }
    }
    out
}

#[test]
fn point_sets_one_half_block() {
    let a = rect(0, 0, 4, 2);
    // row 0.0 → top half of cell row 0.
    let buf = render_bodies(&[point(2.0, 0.0)], a);
    assert_eq!(buf[(2, 0)].symbol(), "▀");
    assert_eq!(buf[(2, 0)].fg, Color::Rgb(255, 255, 255));
    assert_eq!(buf[(0, 0)].symbol(), " "); // untouched cells stay blank

    // row 0.5 → bottom half: the lower-half glyph, background untouched.
    let buf = render_bodies(&[point(1.0, 0.5)], a);
    assert_eq!(buf[(1, 0)].symbol(), "▄");
    assert_eq!(buf[(1, 0)].fg, Color::Rgb(255, 255, 255));
    assert_eq!(buf[(1, 0)].bg, Color::Reset);
}

#[test]
fn both_halves_use_fg_and_bg() {
    let a = rect(0, 0, 3, 3);
    // A disc covering several full cells: its centre cell has both halves set.
    let buf = render_bodies(&[ellipsoid(1.5, 1.5, 1.5, 1.5, 0.0)], a);
    let (top, bottom) = cell_pixels(&buf, 1, 1);
    assert_eq!(buf[(1, 1)].symbol(), "▀");
    assert!(top.is_some() && bottom.is_some());
    assert!(matches!(buf[(1, 1)].bg, Color::Rgb(..)));
}

#[test]
fn circle_is_aspect_corrected() {
    // A circle (r = 4 col cells) spans ~2r cols but ~r rows (2:1 cells).
    let a = rect(0, 0, 20, 10);
    let buf = render_bodies(&[ellipsoid(10.0, 5.0, 4.0, 4.0, 0.0)], a);
    let lit: Vec<(u16, u16)> = (0..10)
        .flat_map(|y| (0..20).map(move |x| (x, y)))
        .filter(|&(x, y)| buf[(x, y)].symbol() != " ")
        .collect();
    let span = |it: Vec<u16>| *it.iter().max().unwrap() - *it.iter().min().unwrap();
    let col_span = span(lit.iter().filter(|(_, y)| *y == 5).map(|p| p.0).collect());
    let row_span = span(lit.iter().filter(|(x, _)| *x == 10).map(|p| p.1).collect());
    assert!((7..=9).contains(&col_span), "col span {col_span} ≈ 2·4");
    assert!((3..=5).contains(&row_span), "row span {row_span} ≈ 4");
}

#[test]
fn shading_darkens_toward_the_limb() {
    let a = rect(0, 0, 20, 10);
    let buf = render_bodies(&[ellipsoid(10.0, 5.0, 6.0, 6.0, 0.0)], a);
    let lum = |x: u16, y: u16| {
        let (top, _) = cell_pixels(&buf, x, y);
        top.map(|[r, ..]| r).unwrap_or(0)
    };
    // Centre is near full intensity; a cell near the limb is markedly darker.
    assert!(lum(10, 5) > 220, "centre {}", lum(10, 5));
    assert!(lum(5, 5) < lum(10, 5) - 60, "limb {} vs centre {}", lum(5, 5), lum(10, 5));
}

fn quantized(rgb: [f64; 3], x: usize, y: usize) -> [u8; 3] {
    quantize(rgb.map(num), x, y)
}

#[test]
fn dither_breaks_flat_midtones() {
    // An intensity between two codes must quantize to two or more levels across a 4×4 block;
    // the exact extremes stay exact.
    let mid = 127.5 / 255.0;
    let vals: Vec<u8> =
        (0..4).flat_map(|y| (0..4).map(move |x| quantized([mid; 3], x, y)[0])).collect();
    assert!(vals.iter().any(|&v| v != vals[0]), "no dither: {vals:?}");
    assert_eq!(quantized([0.0; 3], 1, 2), [0, 0, 0]);
    assert_eq!(quantized([1.0; 3], 3, 1), [255, 255, 255]);
    assert_eq!(
        vals,
        [128, 127, 128, 127, 127, 128, 127, 128, 128, 127, 128, 127, 127, 128, 127, 128]
    );
}

#[test]
fn quantize_agrees_with_double_precision() {
    let bayer: [[u8; 4]; 4] = [[0, 8, 2, 10], [12, 4, 14, 6], [3, 11, 1, 9], [15, 7, 13, 5]];
    let by_doubles = |c: f64, x: usize, y: usize| -> u8 {
        let t = (f64::from(bayer[y % 4][x % 4]) + 0.5) / 16.0;
        let scaled = c.clamp(0.0, 1.0) * 255.0;
        let base = scaled.floor();
        (base as u8).saturating_add(u8::from((scaled - base) > t))
    };
    let mut inputs = vec![
        0.0, -0.0, 1.0, -1.0, 2.0, 5e-324, 1e-310, 1e-17, 0.5, 0.1, 0.3, 1.0 / 3.0, 254.5 / 255.0,
        f64::INFINITY, f64::NEG_INFINITY, f64::NAN, 1e300, -1e300,
        f64::from_bits(1.0f64.to_bits() - 1), f64::from_bits(1.0f64.to_bits() + 1),
    ];
    // The neighbourhoods of every threshold of every code, where rounding decides.
    for k in 0..255u32 {
        for n in 0..16u32 {
            let c = (f64::from(k) + (f64::from(n) + 0.5) / 16.0) / 255.0;
            for step in -2i64..=2 {
                inputs.push(f64::from_bits((c.to_bits() as i64 + step) as u64));
            }
        }
    }
    // A spread of patterns.
    let mut bits: u64 = 0x9E37_79B9_7F4A_7C15;
    for _ in 0..4000 {
        bits = bits.wrapping_mul(6_364_136_223_846_793_005).wrapping_add(1_442_695_040_888_963_407);
        inputs.push(f64::from_bits(0x3FE0_0000_0000_0000 | (bits >> 12)));
        inputs.push(f64::from_bits(0x3F00_0000_0000_0000 + (bits >> 8)));
    }
    for (i, &c) in inputs.iter().enumerate() {
        let (x, y) = (i % 7, i / 5 % 6);
        assert_eq!(quantized([c; 3], x, y), [by_doubles(c, x, y); 3], "{c:e} at ({x}, {y})");
        let (x, y) = (i / 4 % 4, i % 4);
        assert_eq!(quantized([c, 0.0, 1.0], x, y), [by_doubles(c, x, y), 0, 255], "{c:e}");
    }
}

#[test]
fn lib_out_of_bounds_and_degenerate_inputs_are_ignored() {
    let a = rect(0, 0, 1, 1);
    let pts = samples(&[(1.0, 0.0), (-0.1, 0.0), (f64::NAN, 0.0)]);
    let mut buf = blank(a);
    ColorRenderer::new().draw_points(&pts, a, &mut buf);
    assert_eq!(buf[(0, 0)].symbol(), " ");
    // An area without cells is a no-op; a semi-axis that is not finite draws nothing.
    ColorRenderer::new().draw_points(&samples(&[(0.0, 0.0)]), rect(0, 0, 0, 0), &mut buf);
    assert_eq!(buf[(0, 0)].symbol(), " ");
    let buf = render_bodies(&[ellipsoid(0.5, 0.5, f64::INFINITY, 1.0, 0.0)], a);
    assert_eq!(buf[(0, 0)].symbol(), " ");
}

#[test]
fn huge_ellipse_is_bounded() {
    let a = rect(0, 0, 20, 10);
    let buf = render_bodies(&[ellipsoid(10.0, 5.0, 1.0e6, 1.0e6, 0.0)], a);
    assert!(buf[(0, 0)].symbol() != " " && buf[(19, 9)].symbol() != " ");
}

#[test]
fn lib_renders_into_an_offset_area() {
    // Local (0,0) maps to the area's top-left cell: the offset applies on write.
    let a = rect(2, 1, 3, 2);
    let mut buf = blank(a);
    ColorRenderer::new().draw_points(&samples(&[(0.0, 0.0)]), a, &mut buf);
    assert_eq!(buf[(2, 1)].symbol(), "▀");
    assert_eq!(buf[(4, 2)].symbol(), " ");
}

struct PolarTint;

impl Shader for PolarTint {
    fn shade(&self, s: ShadeSample) -> [Binary64; 3] {
        [s.lambert, num((float(s.v) + 1.0) / 2.0), num(0.0)]
    }
}

#[test]
fn custom_shader_hook_is_used() {
    // A shader keyed on the polar coordinate v.
    let a = rect(0, 0, 12, 6);
    let mut buf = blank(a);
    let renderer = ColorRenderer::with_shader(PolarTint);
    draw(&renderer, &[ellipsoid(6.0, 3.0, 4.0, 4.0, 0.0)], a, &mut buf);
    // Green grows toward +v (down): a southern cell is greener than a northern one.
    let g = |x: u16, y: u16| match cell_pixels(&buf, x, y).0 {
        Some([_, g, _]) => g,
        None => 0,
    };
    assert!(g(6, 4) > g(6, 1), "south {} vs north {}", g(6, 4), g(6, 1));
}

#[test]
fn shaded_ellipse_golden() {
    // A tilted oblate ellipse, shaded: the dump holds the silhouette and the darkening limb.
    let a = rect(0, 0, 18, 9);
    let buf = render_bodies(&[ellipsoid(9.0, 4.5, 5.0, 2.5, FRAC_PI_6)], a);
    let want = [
        "                  ",
        "                  ",
        "                  ",
        "                  ",
        "                  ",
        "                  ",
        "     =++=.        ",
        "     +####+       ",
        "     =#%%%#+      ",
        "      +#%%%#=     ",
        "       +####+     ",
        "        .=++=     ",
        "                  ",
        "                  ",
        "                  ",
        "                  ",
        "                  ",
        "                  ",
        "",
    ];
    assert_eq!(pixels_to_text(&buf, a), want.join("\n"));
}

struct Flat([f64; 3]);

impl Shader for Flat {
    fn shade(&self, _sample: ShadeSample) -> [Binary64; 3] {
        self.0.map(num)
    }
}

#[test]
fn later_bodies_paint_over_earlier_ones() {
    // Two bodies with fills of their own, over one pixel: the later one's sample shows.
    let a = rect(0, 0, 2, 1);
    let body = ellipsoid(1.0, 0.5, 1.0, 1.0, 0.0);
    let at = |x: usize, y: usize, lambert: f64| PixelProbe {
        at: Covered {
            x,
            y,
            sample: ShadeSample { lambert: num(lambert), u: num(0.0), v: num(0.0) },
        },
        rho2: num(0.5),
    };
    let fills = vec![vec![at(0, 0, 1.0), at(1, 1, 0.0)], vec![at(0, 0, 0.0), at(5, 9, 1.0)]];
    let mut buf = blank(a);
    ColorRenderer::new().draw_bodies(&vec![body, body], &fills, a, &mut buf);
    assert_eq!(cell_pixels(&buf, 0, 0), (Some([0, 0, 0]), None));
    assert_eq!(cell_pixels(&buf, 1, 0), (None, Some([0, 0, 0])));
    // In the other order, the other one's.
    let turned: Vec<Vec<PixelProbe>> = fills.into_iter().rev().collect();
    let mut buf = blank(a);
    ColorRenderer::new().draw_bodies(&vec![body, body], &turned, a, &mut buf);
    assert_eq!(cell_pixels(&buf, 0, 0), (Some([255, 255, 255]), None));
}

#[test]
fn each_channel_is_shaded_for_itself() {
    let a = rect(0, 0, 1, 1);
    let mut buf = blank(a);
    let renderer = ColorRenderer::with_shader(Flat([1.0, 0.0, 128.0 / 255.0]));
    renderer.draw_points(&samples(&[(0.0, 0.0), (0.0, 0.5)]), a, &mut buf);
    assert_eq!(buf[(0, 0)].fg, Color::Rgb(255, 0, 128));
    assert_eq!(buf[(0, 0)].bg, Color::Rgb(255, 0, 128));
    let sample = ShadeSample { lambert: num(0.25), u: num(0.5), v: num(-0.5) };
    assert_eq!(LambertGray.shade(sample), [num(0.25); 3]);
}

#[test]
fn an_area_beyond_the_buffer_is_refused() {
    let (small, area) = (rect(0, 0, 1, 1), rect(0, 0, 2, 1));
    let r = ColorRenderer::new();
    let mut buf = blank(small);
    assert!(!r.try_draw_points(&samples(&[(0.0, 0.0)]), area, &mut buf));
    assert!(!r.try_draw_bodies(&vec![point(0.0, 0.0)], &vec![Vec::new()], area, &mut buf));
    assert_eq!(buf[(0, 0)].symbol(), " ");
    assert!(r.try_draw_points(&samples(&[(0.0, 0.0)]), small, &mut buf));
    assert_eq!(buf[(0, 0)].symbol(), "▀");
    let mut buf = blank(area);
    assert!(r.try_draw_bodies(&vec![point(1.0, 0.5)], &vec![Vec::new()], area, &mut buf));
    assert_eq!(buf[(1, 0)].symbol(), "▄");
}

#[test]
fn a_probe_sets_its_pixel_only_on_the_silhouette() {
    let a = rect(0, 0, 1, 1);
    let disc = ellipsoid(0.5, 0.5, 1.0, 1.0, 0.0);
    let sample = ShadeSample { lambert: num(1.0), u: num(0.0), v: num(0.0) };
    let above = f64::from_bits(1.0f64.to_bits() + 1);
    for (rho2, sets) in [(0.0, true), (1.0, true), (above, false), (f64::NAN, false)] {
        let mut buf = blank(a);
        let fills = vec![vec![PixelProbe { at: Covered { x: 0, y: 0, sample }, rho2: num(rho2) }]];
        ColorRenderer::new().draw_bodies(&vec![disc], &fills, a, &mut buf);
        let expected = if sets { Some([255, 255, 255]) } else { None };
        assert_eq!(cell_pixels(&buf, 0, 0), (expected, None), "{rho2}");
    }
}

#[test]
fn points_are_drawn_as_point_bodies() {
    let a = rect(1, 1, 3, 2);
    let pts = samples(&[(0.0, 0.0), (1.2, 0.6), (2.9, 1.9), (7.0, 0.0), (-1.0, 0.0)]);
    let renderer = ColorRenderer::new();
    let mut exact = blank(rect(0, 0, 5, 4));
    renderer.draw_points(&pts, a, &mut exact);
    let mut shared = blank(rect(0, 0, 5, 4));
    Renderer::draw_points(&renderer, &pts, a, &mut shared);
    assert_eq!(exact, shared);
    let bodies: Vec<RenderBody> =
        pts.iter().map(|s| RenderBody { col: s.col, row: s.row, kind: RenderKind::Point }).collect();
    let fills: Vec<Vec<PixelProbe>> = bodies.iter().map(|_| Vec::new()).collect();
    let mut bodily = blank(rect(0, 0, 5, 4));
    Renderer::draw_bodies(&renderer, &bodies, &fills, a, &mut bodily);
    assert_eq!(exact, bodily);
    assert_ne!(exact, blank(rect(0, 0, 5, 4)));
}
