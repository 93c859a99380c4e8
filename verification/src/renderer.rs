//! What a rendering backend does: it rasterizes projected bodies into a buffer, at a resolution
//! and fidelity of its own.

use ratatui::buffer::Buffer;
use vstd::prelude::*;
use crate::braille::{BrailleRenderer, Probe, Sample};
use crate::color::{ColorRenderer, PixelProbe, Shader};
use crate::render::{Rect, RenderBody, RenderKind};

verus! {

/// What each of a list of vectors holds.
pub open spec fn views<P>(fills: Seq<Vec<P>>) -> Seq<Seq<P>> {
    fills.map_values(|fill: Vec<P>| fill@)
}

/// The point body at a place.
pub open spec fn point_body(s: Sample) -> RenderBody {
    RenderBody { col: s.col, row: s.row, kind: RenderKind::Point }
}

/// A point body at each place.
pub open spec fn point_bodies(points: Seq<Sample>) -> Seq<RenderBody> {
    points.map_values(|s: Sample| point_body(s))
}

/// No probes for each of `n` bodies.
pub open spec fn no_probes<P>(n: nat) -> Seq<Seq<P>> {
    Seq::new(n, |i: int| Seq::<P>::empty())
}

/// A rendering backend. The silhouette of an ellipsoid is probed by the caller, in double
/// precision, at places that suit the backend; which of them lie on it is the backend's to say.
pub trait Renderer {
    /// One place at which a silhouette is probed.
    type Probe;

    /// The buffer has the cells that drawing the bodies into the area takes; by default, any
    /// buffer has.
    open spec fn can_draw(
        &self,
        buf: Buffer,
        bodies: Seq<RenderBody>,
        fills: Seq<Seq<Self::Probe>>,
        area: Rect,
    ) -> bool {
        true
    }

    /// What the buffer holds once the bodies are drawn into the area; by default, nothing is said
    /// of it.
    open spec fn draws(
        &self,
        before: Buffer,
        after: Buffer,
        bodies: Seq<RenderBody>,
        fills: Seq<Seq<Self::Probe>>,
        area: Rect,
    ) -> bool {
        true
    }

    /// Draw `bodies`, whose centres are in fractional cell coordinates local to `area`, each with
    /// the probes of its silhouette.
    fn draw_bodies(
        &self,
        bodies: &Vec<RenderBody>,
        fills: &Vec<Vec<Self::Probe>>,
        area: Rect,
        buf: &mut Buffer,
    )
        requires
            fills@.len() == bodies@.len(),
            self.can_draw(*old(buf), bodies@, views(fills@), area),
        ensures
            self.draws(*old(buf), *final(buf), bodies@, views(fills@), area),
    ;

    /// Draw bare points: bodies without extent.
    fn draw_points(&self, points: &Vec<Sample>, area: Rect, buf: &mut Buffer)
        requires
            self.can_draw(
                *old(buf),
                point_bodies(points@),
                no_probes::<Self::Probe>(points@.len()),
                area,
            ),
        ensures
            self.draws(
                *old(buf),
                *final(buf),
                point_bodies(points@),
                no_probes::<Self::Probe>(points@.len()),
                area,
            ),
    {
        let mut bodies: Vec<RenderBody> = Vec::new();
        let mut fills: Vec<Vec<Self::Probe>> = Vec::new();
        let mut n: usize = 0;
        while n < points.len()
            invariant
                n <= points@.len(),
                bodies@.len() == n,
                fills@.len() == n,
                forall|i: int| 0 <= i < n ==> (#[trigger] bodies@[i]) == point_body(points@[i]),
                forall|i: int| 0 <= i < n ==> (#[trigger] fills@[i])@.len() == 0,
            decreases points@.len() - n,
        {
            let s: Sample = points[n];
            bodies.push(RenderBody { col: s.col, row: s.row, kind: RenderKind::Point });
            fills.push(Vec::new());
            n = n + 1;
        }
        proof {
            assert(bodies@ =~= point_bodies(points@));
            assert forall|i: int| 0 <= i < fills@.len() implies #[trigger] views(fills@)[i]
                == no_probes::<Self::Probe>(points@.len())[i] by {
                assert(fills@[i]@ =~= Seq::empty());
            }
            assert(views(fills@) =~= no_probes::<Self::Probe>(points@.len()));
        }
        self.draw_bodies(&bodies, &fills, area, buf);
    }
}

impl Renderer for BrailleRenderer {
    type Probe = Probe;

    open spec fn can_draw(
        &self,
        buf: Buffer,
        bodies: Seq<RenderBody>,
        fills: Seq<Seq<Probe>>,
        area: Rect,
    ) -> bool {
        crate::braille::reachable(
            buf,
            crate::braille::all_samples(bodies, fills, bodies.len() as int),
            area,
        )
    }

    open spec fn draws(
        &self,
        before: Buffer,
        after: Buffer,
        bodies: Seq<RenderBody>,
        fills: Seq<Seq<Probe>>,
        area: Rect,
    ) -> bool {
        crate::braille::drawn(
            before,
            after,
            crate::braille::all_samples(bodies, fills, bodies.len() as int),
            area,
        )
    }

    fn draw_bodies(
        &self,
        bodies: &Vec<RenderBody>,
        fills: &Vec<Vec<Probe>>,
        area: Rect,
        buf: &mut Buffer,
    ) {
        BrailleRenderer::draw_bodies(self, bodies, fills, area, buf);
    }
}

impl<S: Shader> Renderer for ColorRenderer<S> {
    type Probe = PixelProbe;

    open spec fn can_draw(
        &self,
        buf: Buffer,
        bodies: Seq<RenderBody>,
        fills: Seq<Seq<PixelProbe>>,
        area: Rect,
    ) -> bool {
        crate::color::pixels_fit(area) && crate::canvas::covers(buf, area)
    }

    open spec fn draws(
        &self,
        before: Buffer,
        after: Buffer,
        bodies: Seq<RenderBody>,
        fills: Seq<Seq<PixelProbe>>,
        area: Rect,
    ) -> bool {
        crate::color::shaded_into(
            self.shading(),
            before,
            after,
            crate::color::all_strokes(
                bodies,
                fills,
                bodies.len() as int,
                area.width as int,
                area.height as int,
            ),
            area,
        )
    }

    fn draw_bodies(
        &self,
        bodies: &Vec<RenderBody>,
        fills: &Vec<Vec<PixelProbe>>,
        area: Rect,
        buf: &mut Buffer,
    ) {
        ColorRenderer::draw_bodies(self, bodies, fills, area, buf);
    }
}

/// In dots, points are bodies without extent: the samples of point bodies are the points.
pub proof fn law_dots_of_points_are_those_of_point_bodies(points: Seq<Sample>)
    ensures
        crate::braille::all_samples(
            point_bodies(points),
            no_probes::<Probe>(points.len()),
            points.len() as int,
        ) == points,
{
    lemma_samples_of_points(points, points.len() as int);
    assert(points.take(points.len() as int) =~= points);
}

/// The samples of the first `n` point bodies are the first `n` points.
proof fn lemma_samples_of_points(points: Seq<Sample>, n: int)
    requires
        0 <= n <= points.len(),
    ensures
        crate::braille::all_samples(
            point_bodies(points),
            no_probes::<Probe>(points.len()),
            n,
        ) == points.take(n),
    decreases n,
{
    if n > 0 {
        lemma_samples_of_points(points, n - 1);
        assert(point_bodies(points)[n - 1] == point_body(points[n - 1]));
        assert(points.take(n) =~= points.take(n - 1) + seq![points[n - 1]]);
    } else {
        assert(points.take(0) =~= Seq::empty());
    }
}

/// In pixels, points are bodies without extent: the strokes of points are those of point bodies.
pub proof fn law_strokes_of_points_are_those_of_point_bodies(
    points: Seq<Sample>,
    n: int,
    w: int,
    h: int,
)
    requires
        0 <= n <= points.len(),
    ensures
        crate::color::all_strokes(
            point_bodies(points),
            no_probes::<PixelProbe>(points.len()),
            n,
            w,
            h,
        ) == crate::color::point_strokes(points, n, w, h),
    decreases n,
{
    if n > 0 {
        law_strokes_of_points_are_those_of_point_bodies(points, n - 1, w, h);
        assert(point_bodies(points)[n - 1] == point_body(points[n - 1]));
        assert(no_probes::<PixelProbe>(points.len())[n - 1] == Seq::<PixelProbe>::empty());
    }
}

/// Probes are taken as they are handed in, each body's own, all of them and in order; a point body
/// stands at its point.
pub proof fn law_probes_and_points_are_taken_as_given<P>(
    fills: Seq<Vec<P>>,
    points: Seq<Sample>,
    i: int,
)
    ensures
        views(fills).len() == fills.len(),
        0 <= i < fills.len() ==> views(fills)[i] == fills[i]@,
        point_bodies(points).len() == points.len(),
        0 <= i < points.len() ==> point_bodies(points)[i].col == points[i].col && point_bodies(
            points,
        )[i].row == points[i].row && point_bodies(points)[i].kind == RenderKind::Point,
{
}

} // verus!
