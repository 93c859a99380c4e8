//! The braille backend: which dots a picture lights, and the text of a buffer.

use std::f64::consts::FRAC_PI_6;

use astrotui::binary64::Binary64;
use astrotui::braille::{braille_bit, BrailleRenderer, Probe, Sample};
use astrotui::canvas::{buffer_to_text, holds, try_buffer_to_text};
use astrotui::render::{Rect, RenderBody, RenderKind};
use astrotui::renderer::Renderer;
use ratatui::buffer::Buffer;

/// Terminal cells are about twice as tall as wide.
const CELL_ASPECT: f64 = 2.0;

fn num(x: f64) -> Binary64 {
    Binary64::from_bits(x.to_bits())
}

fn float(b: Binary64) -> f64 {
    f64::from_bits(b.to_bits())
}

fn rect(x: u16, y: u16, width: u16, height: u16) -> Rect {
    Rect { x, y, width, height }
}

fn blank(area: Rect) -> Buffer {
    Buffer::empty(ratatui::layout::Rect::new(area.x, area.y, area.width, area.height))
}

fn samples(points: &[(f64, f64)]) -> Vec<Sample> {
    points.iter().map(|&(col, row)| Sample { col: num(col), row: num(row) }).collect()
}

fn render(points: &[(f64, f64)], area: Rect) -> Buffer {
    let mut buf = blank(area);
    BrailleRenderer::new().draw_points(&samples(points), area, &mut buf);
    buf
}

fn glyph(buf: &Buffer, x: u16, y: u16) -> String {
    buf[(x, y)].symbol().to_string()
}

/// The samples at which a silhouette is probed, in a box clamped to the viewport.
fn dot_fill(body: &RenderBody, area: Rect) -> Vec<Probe> {
    let mut out = Vec::new();
    let RenderKind::Ellipsoid { semi_major, semi_minor, tilt } = body.kind else {
        return out;
    };
    if !body.is_fillable() {
        return out;
    }
    let (cx, cy) = (float(body.col), float(body.row));
    let (a, b) = (float(semi_major), float(semi_minor));
    let (sin_t, cos_t) = float(tilt).sin_cos();
    let rcol = a.max(b);
    let rrow = rcol / CELL_ASPECT;
    let col_hi = (cx + rcol).min(f64::from(area.width));
    let row_hi = (cy + rrow).min(f64::from(area.height));
    let mut col = (cx - rcol).max(0.0);
    while col <= col_hi {
        let mut row = (cy - rrow).max(0.0);
        while row <= row_hi {
            let dx = col - cx;
            let dy = (row - cy) * CELL_ASPECT;
            let u = (dx * cos_t + dy * sin_t) / a;
            let v = (-dx * sin_t + dy * cos_t) / b;
            let at = Sample { col: num(col), row: num(row) };
            out.push(Probe { at, rho2: num(u * u + v * v) });
            row += 0.25;
        }
        col += 0.5;
    }
    out
}

fn ellipsoid(col: f64, row: f64, a: f64, b: f64, tilt: f64) -> RenderBody {
    RenderBody {
        col: num(col),
        row: num(row),
        kind: RenderKind::Ellipsoid {
            semi_major: num(a),
            semi_minor: num(b),
            tilt: num(tilt),
        },
    }
}

fn render_bodies(bodies: &[RenderBody], area: Rect) -> Buffer {
    let mut buf = blank(area);
    let fills: Vec<Vec<Probe>> = bodies.iter().map(|b| dot_fill(b, area)).collect();
    BrailleRenderer::new().draw_bodies(&bodies.to_vec(), &fills, area, &mut buf);
    buf
}

fn lit(buf: &Buffer, area: Rect) -> Vec<(u16, u16)> {
    let mut v = Vec::new();
    for y in 0..area.height {
        for x in 0..area.width {
            if buf[(area.x + x, area.y + y)].symbol() != " " {
                v.push((x, y));
            }
        }
    }
    v
}

#[test]
fn plots_subcell_dots() {
    let a = rect(0, 0, 1, 1);
    assert_eq!(glyph(&render(&[(0.0, 0.0)], a), 0, 0), "\u{2801}"); // top-left, dot 1
    assert_eq!(glyph(&render(&[(0.5, 0.0)], a), 0, 0), "\u{2808}"); // top-right, dot 4
    assert_eq!(glyph(&render(&[(0.5, 0.75)], a), 0, 0), "\u{2880}"); // bottom-right, dot 8
}

#[test]
fn dots_in_one_cell_combine() {
    let a = rect(0, 0, 1, 1);
    // dot 1 (0x01) | dot 4 (0x08) = 0x09 → U+2809.
    assert_eq!(glyph(&render(&[(0.0, 0.0), (0.5, 0.0)], a), 0, 0), "\u{2809}");
}

#[test]
fn point_lands_in_the_correct_cell_others_blank() {
    let a = rect(0, 0, 4, 2);
    let buf = render(&[(2.0, 0.0)], a); // dx=4 → cell col 2; dy=0 → cell row 0, dot 1
    assert_eq!(glyph(&buf, 2, 0), "\u{2801}");
    assert_eq!(glyph(&buf, 0, 0), " "); // untouched cells stay blank
    assert_eq!(glyph(&buf, 1, 1), " ");
}

#[test]
fn out_of_bounds_and_degenerate_inputs_are_ignored() {
    let a = rect(0, 0, 1, 1);
    // Off the 1×1 cell, negative, and not finite: none panics, none is drawn.
    let buf = render(&[(1.0, 0.0), (-0.1, 0.0), (f64::NAN, 0.0)], a);
    assert_eq!(glyph(&buf, 0, 0), " ");
    // An area without cells is a no-op.
    BrailleRenderer::new().draw_points(&samples(&[(0.0, 0.0)]), rect(0, 0, 0, 0), &mut blank(a));
}

#[test]
fn renders_into_an_offset_area() {
    // Local (0,0) maps to the area's top-left cell (2,1).
    let a = rect(2, 1, 3, 2);
    let buf = render(&[(0.0, 0.0)], a);
    assert_eq!(glyph(&buf, 2, 1), "\u{2801}");
    assert_eq!(glyph(&buf, 4, 2), " "); // another in-area cell, untouched
}

#[test]
fn fill_ellipse_circle_is_aspect_corrected() {
    // A round silhouette of 4 cells spans ~2·r cols but ~r rows.
    let a = rect(0, 0, 20, 10);
    let cells = lit(&render_bodies(&[ellipsoid(10.0, 5.0, 4.0, 4.0, 0.0)], a), a);
    let span = |it: Vec<u16>| *it.iter().max().unwrap() - *it.iter().min().unwrap();
    let col_span = span(cells.iter().filter(|(_, y)| *y == 5).map(|(x, _)| *x).collect());
    let row_span = span(cells.iter().filter(|(x, _)| *x == 10).map(|(_, y)| *y).collect());
    assert!((7..=9).contains(&col_span), "col span {col_span} ≈ 2·4");
    assert!((3..=5).contains(&row_span), "row span {row_span} ≈ 2·4/CELL_ASPECT");
}

#[test]
fn ellipsoid_fills_more_than_a_point() {
    let a = rect(0, 0, 20, 10);
    let point = RenderBody { col: num(10.0), row: num(5.0), kind: RenderKind::Point };
    let disc = ellipsoid(10.0, 5.0, 3.0, 3.0, 0.0);
    assert_eq!(lit(&render_bodies(&[point], a), a).len(), 1); // a point lights one cell
    assert!(lit(&render_bodies(&[disc], a), a).len() > 10); // a disc lights many
}

#[test]
fn fill_ellipse_huge_and_nonfinite_are_bounded() {
    let a = rect(0, 0, 20, 10);
    // A huge ellipse fills the visible area.
    let huge = ellipsoid(10.0, 5.0, 1.0e6, 1.0e6, 0.0);
    assert!(lit(&render_bodies(&[huge], a), a).len() > 100);
    // One with a semi-axis that is not finite draws nothing, whatever fill it comes with.
    let inf = ellipsoid(10.0, 5.0, f64::INFINITY, 4.0, 0.0);
    assert!(lit(&render_bodies(&[inf], a), a).is_empty());
    let mut buf = blank(a);
    let fills = vec![vec![Probe { at: samples(&[(3.0, 3.0)])[0], rho2: num(0.0) }]];
    BrailleRenderer::new().draw_bodies(&vec![inf], &fills, a, &mut buf);
    assert!(lit(&buf, a).is_empty());
}

#[test]
fn oblate_ellipse_silhouette_golden() {
    // A tilted oblate ellipse: major 5, minor 2.5, tilt 30°.
    let a = rect(0, 0, 18, 9);
    let buf = render_bodies(&[ellipsoid(9.0, 4.5, 5.0, 2.5, FRAC_PI_6)], a);
    let want = [
        "                  ",
        "                  ",
        "                  ",
        "     ⣾⣿⣿⣷⣶⣤⡀      ",
        "     ⠻⣿⣿⣿⣿⣿⣿⣦⡀    ",
        "      ⠈⠻⢿⣿⣿⣿⣿⡇    ",
        "          ⠉⠉⠉     ",
        "                  ",
        "                  ",
        "",
    ];
    assert_eq!(buffer_to_text(&buf), want.join("\n"));
}

#[test]
fn each_dot_has_its_own_bit() {
    let bits: Vec<u8> =
        (0..2).flat_map(|x| (0..4).map(move |y| braille_bit(x, y))).collect();
    assert_eq!(bits, [0x01, 0x02, 0x04, 0x40, 0x08, 0x10, 0x20, 0x80]);
    assert_eq!(braille_bit(2, 0), 0);
    assert_eq!(braille_bit(0, 4), 0);
    // Every dot of a cell lit: the last braille character.
    let all: Vec<(f64, f64)> = (0..2)
        .flat_map(|x| (0..4).map(move |y| (f64::from(x) * 0.5, f64::from(y) * 0.25)))
        .collect();
    assert_eq!(glyph(&render(&all, rect(0, 0, 1, 1)), 0, 0), "\u{28FF}");
}

#[test]
fn the_order_of_samples_is_irrelevant() {
    let a = rect(0, 0, 3, 2);
    let points = [(0.1, 0.2), (2.9, 1.9), (0.6, 0.2), (1.0, 1.5), (0.1, 0.9)];
    let mut reversed = points;
    reversed.reverse();
    assert_eq!(buffer_to_text(&render(&points, a)), buffer_to_text(&render(&reversed, a)));
    // Nor does it matter how often one is drawn.
    let repeated = [points, reversed, points].concat();
    assert_eq!(buffer_to_text(&render(&points, a)), buffer_to_text(&render(&repeated, a)));
}

#[test]
fn dots_agree_with_doubled_and_quadrupled_coordinates() {
    // A dot is the truncation of twice the column and four times the row, in doubles.
    let a = rect(0, 0, 3, 2);
    let below = |x: f64| f64::from_bits(x.to_bits() - 1);
    let cols = [0.0, -0.0, 1e-310, 0.3, below(0.5), 0.5, below(1.0), 2.7, below(3.0), 3.0, 1e308];
    let rows = [0.0, 0.2, below(0.25), 0.25, 1.1, below(2.0), 2.0, f64::INFINITY, -1e-320];
    for col in cols {
        for row in rows {
            let buf = render(&[(col, row)], a);
            let (dx, dy) = (col * 2.0, row * 4.0);
            let inside = dx >= 0.0 && dy >= 0.0 && dx < 6.0 && dy < 8.0;
            if inside {
                let (dx, dy) = (dx as usize, dy as usize);
                let want = char::from_u32(0x2800 + u32::from(braille_bit(dx % 2, dy % 4)));
                let got = glyph(&buf, (dx / 2) as u16, (dy / 4) as u16);
                assert_eq!(got, want.unwrap().to_string(), "{col} {row}");
                assert_eq!(lit(&buf, a).len(), 1);
            } else {
                assert!(lit(&buf, a).is_empty(), "{col} {row}");
            }
        }
    }
}

#[test]
fn text_is_one_line_per_row() {
    let a = rect(2, 1, 3, 2);
    assert_eq!(buffer_to_text(&blank(a)), "   \n   \n");
    assert_eq!(buffer_to_text(&render(&[(1.0, 1.0)], a)), "   \n \u{2801} \n");
    assert_eq!(buffer_to_text(&blank(rect(0, 0, 0, 0))), "");
}

#[test]
fn an_area_beyond_the_buffer_is_refused_only_where_it_is_inked() {
    // The buffer has one cell of an area of two.
    let (small, area) = (rect(0, 0, 1, 1), rect(0, 0, 2, 1));
    let r = BrailleRenderer::new();
    let mut buf = blank(small);
    assert!(!holds(&buf, area));
    assert!(holds(&buf, small));
    assert!(r.try_draw_points(&samples(&[(0.0, 0.0)]), area, &mut buf));
    assert_eq!(glyph(&buf, 0, 0), "\u{2801}");
    // A dot in the missing cell: nothing is drawn, not even the rest.
    let mut buf = blank(small);
    assert!(!r.try_draw_points(&samples(&[(0.0, 0.0), (1.0, 0.0)]), area, &mut buf));
    assert_eq!(glyph(&buf, 0, 0), " ");
    let point = RenderBody { col: num(1.0), row: num(0.0), kind: RenderKind::Point };
    let fills = vec![Vec::new()];
    assert!(!r.try_draw_bodies(&vec![point], &fills, area, &mut buf));
    assert!(r.try_draw_bodies(&vec![point], &fills, area, &mut blank(area)));
    // Past the last column there is no cell.
    let edge = rect(0xFFFF, 0, 2, 1);
    assert!(!r.try_draw_points(&samples(&[(1.0, 0.0)]), edge, &mut blank(small)));
    assert!(!holds(&blank(small), edge));
    assert!(holds(&blank(small), rect(9, 9, 0, 3)));
}

#[test]
fn a_buffer_without_its_cells_has_no_text() {
    let mut buf = blank(rect(0, 0, 2, 2));
    assert_eq!(try_buffer_to_text(&buf).as_deref(), Some("  \n  \n"));
    buf.content.pop();
    assert_eq!(try_buffer_to_text(&buf), None);
    assert!(!holds(&buf, rect(0, 0, 2, 2)));
    assert!(holds(&buf, rect(0, 0, 2, 1)));
}

#[test]
fn a_probe_lights_its_dot_only_on_the_silhouette() {
    let a = rect(0, 0, 1, 1);
    let disc = ellipsoid(0.5, 0.5, 1.0, 1.0, 0.0);
    let at = samples(&[(0.0, 0.0)])[0];
    let above = f64::from_bits(1.0f64.to_bits() + 1);
    for (rho2, lights) in [
        (0.0, true),
        (1.0, true),
        (above, false),
        (f64::NAN, false),
        (f64::INFINITY, false),
        (-1.0, true),
    ] {
        let mut buf = blank(a);
        let fills = vec![vec![Probe { at, rho2: num(rho2) }]];
        BrailleRenderer::new().draw_bodies(&vec![disc], &fills, a, &mut buf);
        assert_eq!(lit(&buf, a).len(), usize::from(lights), "{rho2}");
    }
}

#[test]
fn points_are_drawn_as_point_bodies_in_dots() {
    let a = rect(1, 1, 3, 2);
    let pts = samples(&[(0.0, 0.0), (1.2, 0.6), (2.9, 1.9), (7.0, 0.0), (-1.0, 0.0)]);
    let renderer = BrailleRenderer::new();
    let mut exact = blank(rect(0, 0, 5, 4));
    renderer.draw_points(&pts, a, &mut exact);
    let mut shared = blank(rect(0, 0, 5, 4));
    Renderer::draw_points(&renderer, &pts, a, &mut shared);
    assert_eq!(exact, shared);
    let disc = ellipsoid(1.0, 1.0, 1.0, 1.0, 0.0);
    let fills = vec![dot_fill(&disc, a)];
    let mut own = blank(rect(0, 0, 5, 4));
    renderer.draw_bodies(&vec![disc], &fills, a, &mut own);
    let mut through = blank(rect(0, 0, 5, 4));
    Renderer::draw_bodies(&renderer, &vec![disc], &fills, a, &mut through);
    assert_eq!(own, through);
    assert_ne!(own, blank(rect(0, 0, 5, 4)));
}
