//! Projecting a snapshot through a camera: what is drawn, what is culled, and what is reported.
//!
//! A camera is a reference frame, so an object projects by its state relative to the camera's
//! frame. The arithmetic of that — composing transforms, dividing by depth — is done by the
//! caller in double precision and comes in as one [`Sight`] per object. What is decided from it
//! is decided here: whether the lens and the canvas allow a picture at all, which frames and
//! objects resolve, which points fall inside the viewport, and at what level of detail a body
//! draws. Given a lens and a canvas, nothing that could not be rendered goes unreported.

use std::sync::Arc;
use vstd::prelude::*;
use vstd::arithmetic::power2::pow2;
use crate::binary64::Binary64;
use crate::camera::{Camera, CameraTarget};
use crate::frames::{build_tree, find_frame, FrameArena};
use crate::ident::{FrameKey, FrameUid, ObjectId};
use crate::keyed::Keyed;
use crate::lod::{Lod, LodMemory};
use crate::scene::{FrameRecord, SceneObject, SceneStore, Snapshot, Vec3};

verus! {

/// A rectangle of terminal cells.
#[derive(Clone, Copy, Debug, PartialEq, Eq, Structural)]
pub struct Rect {
    /// Leftmost column.
    pub x: u16,
    /// Topmost row.
    pub y: u16,
    /// Number of columns.
    pub width: u16,
    /// Number of rows.
    pub height: u16,
}

/// A matrix of three columns.
#[derive(Clone, Copy, Debug, PartialEq, Eq, Structural)]
pub struct Mat3 {
    pub x_axis: Vec3,
    pub y_axis: Vec3,
    pub z_axis: Vec3,
}

/// One object as the eye sees it, in double-precision arithmetic.
#[derive(Clone, Copy, Debug, PartialEq, Eq, Structural)]
pub struct Sight {
    /// Position in the camera frame (metres).
    pub pos_cam: Vec3,
    /// Body axes in camera-frame coordinates.
    pub att_cam: Mat3,
    /// Distance from the eye along the view axis (metres).
    pub depth: Binary64,
    /// Fractional cell column, from the area's left edge.
    pub col: Binary64,
    /// Fractional cell row, from the area's top edge.
    pub row: Binary64,
    /// On-screen equatorial radius at that depth (cells), where the object has a shape.
    pub radius: Binary64,
    /// On-screen semi-minor axis of its silhouette (cells).
    pub semi_minor: Binary64,
    /// Angle of the silhouette's major axis from screen-right (radians).
    pub tilt: Binary64,
}

/// What double-precision arithmetic gives for one view.
#[derive(Debug)]
pub struct Optics {
    /// The tangent of half the field of view.
    pub tan_half: Binary64,
    /// The sight of each of the snapshot's objects, in their order.
    pub sights: Vec<Sight>,
}

/// An object projected into the viewport, in fractional cell coordinates local to the render
/// area: `(0, 0)` is the top-left cell, `col` grows right, `row` grows down.
#[derive(Debug)]
pub struct ProjectedPoint {
    /// Which object.
    pub id: ObjectId,
    /// Fractional cell column.
    pub col: Binary64,
    /// Fractional cell row.
    pub row: Binary64,
    /// Position in the camera frame (metres).
    pub pos_cam: Vec3,
    /// Body axes in camera-frame coordinates.
    pub att_cam: Mat3,
}

/// What a projection pass could not render, so that the host can show it instead of presenting a
/// silently blank screen. Objects off-screen are culled as usual and not reported.
#[derive(Debug)]
pub struct RenderReport {
    /// Objects whose frame is not in the tree of frames.
    pub orphan_objects: Vec<ObjectId>,
    /// Frames that no tree could hold.
    pub dropped_frames: Vec<FrameUid>,
    /// The camera's own frame, where it is not in the tree: nothing can be drawn.
    pub unresolved_camera_frame: Option<FrameUid>,
}

impl RenderReport {
    /// Nothing is reported.
    pub open spec fn clean(self) -> bool {
        self.orphan_objects@.len() == 0 && self.dropped_frames@.len() == 0
            && self.unresolved_camera_frame is None
    }

    /// Whether every object and frame resolved and the camera frame was found.
    pub fn is_clean(&self) -> (r: bool)
        ensures
            r == self.clean(),
    {
        self.orphan_objects.len() == 0 && self.dropped_frames.len() == 0
            && self.unresolved_camera_frame.is_none()
    }
}

impl Default for RenderReport {
    /// Nothing to report.
    fn default() -> (r: Self)
        ensures
            r.clean(),
    {
        RenderReport {
            orphan_objects: Vec::new(),
            dropped_frames: Vec::new(),
            unresolved_camera_frame: None,
        }
    }
}

/// The pattern of π.
pub const PI: u64 = 0x4009_21FB_5444_2D18;

/// The near plane, 1 m: objects at or behind it are culled, since a depth that is not positive
/// would flip the perspective divide.
pub const NEAR_PLANE_M: u64 = 0x3FF0_0000_0000_0000;

/// The lens is a sane angle: between 0 and π, with a finite tangent of its half.
pub open spec fn lens_ok(fov: Binary64, tan_half: Binary64) -> bool {
    &&& crate::binary64::less(Binary64 { bits: 0 }, fov)
    &&& crate::binary64::less(fov, Binary64 { bits: PI })
    &&& crate::binary64::finite(tan_half)
}

/// There is a lens to look through and a canvas to draw on.
pub open spec fn equipped(camera: Camera, area: Rect, tan_half: Binary64) -> bool {
    lens_ok(camera.fov, tan_half) && area.width > 0 && area.height > 0
}

/// There is a picture to make: a lens, a canvas, and a place for the eye.
pub open spec fn drawable(snap: Snapshot, camera: Camera, area: Rect, tan_half: Binary64) -> bool {
    &&& equipped(camera, area, tan_half)
    &&& crate::frames::grounded(snap.frame_seq(), camera.frame@)
}

/// The point lies in front of the near plane and inside the viewport.
pub open spec fn in_view(s: Sight, area: Rect) -> bool {
    let zero = Binary64 { bits: 0 };
    &&& !crate::binary64::at_most(s.depth, Binary64 { bits: NEAR_PLANE_M })
    &&& crate::binary64::finite(s.col) && crate::binary64::finite(s.row)
    &&& !crate::binary64::less(s.col, zero) && !crate::binary64::less(s.row, zero)
    &&& crate::binary64::floor_shifted(s.col, 0) < area.width
    &&& crate::binary64::floor_shifted(s.row, 0) < area.height
}

/// The object's frame has a place in the tree of frames.
pub open spec fn resolves(snap: Snapshot, i: int) -> bool {
    crate::frames::grounded(snap.frame_seq(), snap.object_seq()[i].frame@)
}

/// The ids of the first `n` objects that do not resolve, in order.
pub open spec fn orphans(snap: Snapshot, n: int) -> Seq<Seq<char>>
    decreases n,
{
    if n <= 0 {
        Seq::empty()
    } else if resolves(snap, n - 1) {
        orphans(snap, n - 1)
    } else {
        orphans(snap, n - 1).push(snap.object_seq()[n - 1].id@)
    }
}

/// The places of the first `n` objects that resolve and are in view, in order.
pub open spec fn shown(snap: Snapshot, area: Rect, sights: Seq<Sight>, n: int) -> Seq<int>
    decreases n,
{
    if n <= 0 {
        Seq::empty()
    } else if resolves(snap, n - 1) && in_view(sights[n - 1], area) {
        shown(snap, area, sights, n - 1).push(n - 1)
    } else {
        shown(snap, area, sights, n - 1)
    }
}

/// The ids in a vector, in order.
pub open spec fn id_seq(v: Seq<ObjectId>) -> Seq<Seq<char>> {
    v.map_values(|id: ObjectId| id@)
}

/// What a projection pass reports. Without a lens or a canvas, nothing; otherwise the frames
/// that no tree can hold, the objects that do not resolve, and the camera's frame where the tree
/// has others but not that one.
pub open spec fn reports(
    r: RenderReport,
    snap: Snapshot,
    camera: Camera,
    area: Rect,
    tan_half: Binary64,
) -> bool {
    let frames = snap.frame_seq();
    let any = exists|i: int|
        0 <= i < frames.len() && crate::frames::grounded(frames, (#[trigger] frames[i]).uid@);
    if !equipped(camera, area, tan_half) {
        r.clean()
    } else {
        &&& crate::frames::keys(r.dropped_frames@) == crate::frames::unplaceable(frames)
        &&& id_seq(r.orphan_objects@) == orphans(snap, snap.object_seq().len() as int)
        &&& r.unresolved_camera_frame == if any && !drawable(snap, camera, area, tan_half) {
            Some(camera.frame)
        } else {
            None
        }
    }
}

/// Where the view axis comes from.
#[derive(Clone, Copy, Debug, PartialEq, Eq, Structural)]
pub enum Look {
    /// The camera's own bearing.
    Bearing,
    /// The origin of the frame at a node.
    Frame(usize),
    /// The object at a place in the snapshot.
    Object(usize),
    /// The target is not in the scene: the eye keeps its default axis.
    Nowhere,
}

/// What the perspective pass is to compute: the frames, where the eye sits, the objects with
/// their nodes, and what it looks at.
#[derive(Debug)]
pub struct ViewPlan {
    /// The placed frames.
    pub arena: FrameArena,
    /// The node of the camera's frame.
    pub eye: usize,
    /// For each object, the node of its frame; `None` where it does not resolve.
    pub nodes: Vec<Option<usize>>,
    /// Where the view axis comes from.
    pub look: Look,
}

/// Node `n` is that of the frame named `uid`.
pub open spec fn node_of(arena: FrameArena, snap: Snapshot, n: int, uid: FrameKey) -> bool {
    &&& n < arena.nodes@.len()
    &&& snap.frame_seq()[arena.nodes@[n].frame as int].uid@ == uid
}

/// `node` is that of the frame of object `i`, or `None` where it does not resolve.
pub open spec fn node_fits(arena: FrameArena, snap: Snapshot, i: int, node: Option<usize>) -> bool {
    match node {
        Some(n) => resolves(snap, i) && node_of(arena, snap, n as int, snap.object_seq()[i].frame@),
        None => !resolves(snap, i),
    }
}

impl ViewPlan {
    /// The plan fits the snapshot and the camera.
    pub open spec fn fits(self, snap: Snapshot, camera: Camera) -> bool {
        &&& self.arena.wf(snap.frame_seq()) && self.arena.complete(snap.frame_seq())
        &&& node_of(self.arena, snap, self.eye as int, camera.frame@)
        &&& self.nodes@.len() == snap.object_seq().len()
        &&& forall|i: int|
            0 <= i < snap.object_seq().len() ==> node_fits(
                self.arena,
                snap,
                i,
                #[trigger] self.nodes@[i],
            )
        &&& self.looks(snap, camera)
    }

    /// The view axis comes from what the camera targets, where the scene has it.
    pub open spec fn looks(self, snap: Snapshot, camera: Camera) -> bool {
        match camera.target {
            CameraTarget::Bearing(_) => self.look is Bearing,
            CameraTarget::FrameOrigin(uid) => if crate::frames::grounded(snap.frame_seq(), uid@) {
                self.look is Frame && node_of(self.arena, snap, self.look->Frame_0 as int, uid@)
            } else {
                self.look is Nowhere
            },
            CameraTarget::Object(id) => match self.look {
                Look::Object(i) => {
                    &&& i < snap.object_seq().len()
                    &&& resolves(snap, i as int)
                    &&& snap.object_seq()[i as int].id@ == id@
                },
                Look::Nowhere => forall|i: int|
                    0 <= i < snap.object_seq().len() && resolves(snap, i)
                        ==> (#[trigger] snap.object_seq()[i]).id@ != id@,
                _ => false,
            },
        }
    }
}

/// The node of the frame named `uid`, where the tree has it.
fn node_for(snap: &Snapshot, arena: &FrameArena, uid: &FrameUid) -> (r: Option<usize>)
    requires
        snap.wf(),
        arena.wf(snap.frame_seq()),
        arena.complete(snap.frame_seq()),
    ensures
        r is Some <==> crate::frames::grounded(snap.frame_seq(), uid@),
        r matches Some(n) ==> node_of(*arena, *snap, n as int, uid@),
{
    let frames: &Vec<Arc<FrameRecord>> = snap.frames();
    match find_frame(frames, uid) {
        Some(i) => {
            assert(arena.slots@[i as int] is Some <==> crate::frames::grounded(
                frames@,
                frames@[i as int].uid@,
            ));
            arena.slots[i]
        },
        None => {
            assert(!crate::frames::grounded(frames@, uid@)) by {
                if crate::frames::grounded(frames@, uid@) {
                    let n = choose|n: nat| #[trigger]
                        crate::frames::grounded_within(frames@, uid@, n);
                    assert(crate::frames::grounded_within(frames@, uid@, n));
                }
            }
            None
        },
    }
}

/// The ids of all objects, which are all orphans where no frame has a place.
fn all_ids(snap: &Snapshot) -> (r: Vec<ObjectId>)
    requires
        forall|i: int| 0 <= i < snap.object_seq().len() ==> !#[trigger] resolves(*snap, i),
    ensures
        id_seq(r@) == orphans(*snap, snap.object_seq().len() as int),
{
    let objects: &Vec<Arc<SceneObject>> = snap.objects();
    let mut out: Vec<ObjectId> = Vec::new();
    let mut i: usize = 0;
    assert(id_seq(out@) =~= Seq::empty());
    while i < objects.len()
        invariant
            objects@ == snap.object_seq(),
            i <= objects@.len(),
            forall|k: int| 0 <= k < objects@.len() ==> !#[trigger] resolves(*snap, k),
            id_seq(out@) == orphans(*snap, i as int),
        decreases objects@.len() - i,
    {
        let ghost before = out@;
        out.push(objects[i].id.clone());
        assert(!resolves(*snap, i as int));
        assert(id_seq(out@) =~= id_seq(before).push(objects@[i as int].id@));
        i = i + 1;
    }
    out
}

/// Decide what a view of the scene shows before anything is computed: the report, and the plan
/// for the perspective pass where there is a picture to make.
pub fn project_core(snap: &Snapshot, camera: &Camera, area: Rect, tan_half: Binary64) -> (r: (
    RenderReport,
    Option<ViewPlan>,
))
    requires
        snap.wf(),
    ensures
        reports(r.0, *snap, *camera, area, tan_half),
        r.1 is Some <==> drawable(*snap, *camera, area, tan_half),
        r.1 matches Some(plan) ==> plan.fits(*snap, *camera),
        r.1 matches Some(plan) ==> {
            &&& plan.eye < plan.arena.nodes@.len()
            &&& snap.frame_seq()[plan.arena.nodes@[plan.eye as int].frame as int].uid@
                == camera.frame@
            &&& plan.nodes@.len() == snap.object_seq().len()
            &&& forall|i: int|
                0 <= i < plan.nodes@.len() ==> ((#[trigger] plan.nodes@[i]) matches Some(n) ==> n
                    < plan.arena.nodes@.len()
                    && snap.frame_seq()[plan.arena.nodes@[n as int].frame as int].uid@
                    == snap.object_seq()[i].frame@)
            &&& plan.look matches Look::Object(i) ==> i < snap.object_seq().len()
                && camera.target == CameraTarget::Object(camera.target->Object_0)
                && snap.object_seq()[i as int].id@ == camera.target->Object_0@
            &&& plan.look matches Look::Frame(n) ==> n < plan.arena.nodes@.len()
                && camera.target is FrameOrigin
                && snap.frame_seq()[plan.arena.nodes@[n as int].frame as int].uid@
                == camera.target->FrameOrigin_0@
            &&& plan.look is Bearing <==> camera.target is Bearing
        },
{
    let ghost frames = snap.frame_seq();
    let zero: Binary64 = Binary64::from_bits(0);
    if !(zero.lt(camera.fov) && camera.fov.lt(Binary64::from_bits(PI)) && tan_half.is_finite())
        || area.width == 0 || area.height == 0 {
        return (RenderReport::default(), None);
    }
    let (built, dropped_frames): (Option<FrameArena>, Vec<FrameUid>) = build_tree(snap);
    let mut report: RenderReport = RenderReport {
        orphan_objects: Vec::new(),
        dropped_frames,
        unresolved_camera_frame: None,
    };
    assert(id_seq(report.orphan_objects@) =~= Seq::empty());
    let arena: FrameArena = match built {
        Some(a) => a,
        None => {
            assert forall|uid: FrameKey| !(#[trigger] crate::frames::grounded(frames, uid)) by {
                lemma_grounded_is_a_frame(frames, uid);
            }
            report.orphan_objects = all_ids(snap);
            return (report, None);
        },
    };
    assert(exists|i: int|
        0 <= i < frames.len() && crate::frames::grounded(frames, (#[trigger] frames[i]).uid@)) by {
        assert(arena.node_ok(frames, 0));
        let f = arena.nodes@[0].frame as int;
        assert(arena.slots@[f] is Some);
        assert(crate::frames::grounded(frames, frames[f].uid@));
    }
    let objects: &Vec<Arc<SceneObject>> = snap.objects();
    let mut nodes: Vec<Option<usize>> = Vec::new();
    let mut look: Look = match &camera.target {
        CameraTarget::Bearing(_) => Look::Bearing,
        CameraTarget::FrameOrigin(uid) => match node_for(snap, &arena, uid) {
            Some(n) => Look::Frame(n),
            None => Look::Nowhere,
        },
        CameraTarget::Object(_) => Look::Nowhere,
    };
    let ghost first_look = look;
    let mut i: usize = 0;
    while i < objects.len()
        invariant
            snap.wf(),
            objects@ == snap.object_seq(),
            i <= objects@.len(),
            arena.wf(snap.frame_seq()),
            arena.complete(snap.frame_seq()),
            id_seq(report.orphan_objects@) == orphans(*snap, i as int),
            report.dropped_frames@ == dropped_frames@,
            report.unresolved_camera_frame is None,
            nodes@.len() == i,
            forall|k: int| 0 <= k < i ==> node_fits(arena, *snap, k, #[trigger] nodes@[k]),
            !(camera.target is Object) ==> look == first_look,
            camera.target matches CameraTarget::Object(id) ==> match look {
                Look::Object(j) => j < i && resolves(*snap, j as int) && objects@[j as int].id@
                    == id@,
                Look::Nowhere => forall|j: int|
                    0 <= j < i && resolves(*snap, j) ==> (#[trigger] objects@[j]).id@ != id@,
                _ => false,
            },
        decreases objects@.len() - i,
    {
        let obj: &Arc<SceneObject> = &objects[i];
        let ghost gone = report.orphan_objects@;
        let node: Option<usize> = node_for(snap, &arena, &obj.frame);
        match node {
            Some(_) => {
                match &camera.target {
                    CameraTarget::Object(id) => {
                        if obj.id.same(id) {
                            look = Look::Object(i);
                        }
                    },
                    _ => {},
                }
            },
            None => {
                report.orphan_objects.push(obj.id.clone());
                assert(id_seq(report.orphan_objects@) =~= id_seq(gone).push(
                    objects@[i as int].id@,
                ));
            },
        }
        nodes.push(node);
        i = i + 1;
    }
    let eye: usize = match node_for(snap, &arena, &camera.frame) {
        Some(n) => n,
        None => {
            report.unresolved_camera_frame = Some(camera.frame.clone());
            return (report, None);
        },
    };
    let plan: ViewPlan = ViewPlan { arena, eye, nodes, look };
    (report, Some(plan))
}

/// A grounded identity is that of some frame.
proof fn lemma_grounded_is_a_frame(frames: Seq<Arc<FrameRecord>>, uid: FrameKey)
    ensures
        crate::frames::grounded(frames, uid) ==> exists|i: int|
            0 <= i < frames.len() && (#[trigger] frames[i]).uid@ == uid,
{
    if crate::frames::grounded(frames, uid) {
        let n = choose|n: nat| #[trigger] crate::frames::grounded_within(frames, uid, n);
        assert(crate::frames::grounded_within(frames, uid, n));
    }
}

/// Whether a sight lies in front of the near plane and inside the viewport.
fn sight_in_view(s: Sight, area: Rect) -> (r: bool)
    ensures
        r == in_view(s, area),
{
    let zero: Binary64 = Binary64::from_bits(0);
    if s.depth.le(Binary64::from_bits(NEAR_PLANE_M)) {
        return false;
    }
    if !s.col.is_finite() || !s.row.is_finite() {
        return false;
    }
    if s.col.lt(zero) || s.row.lt(zero) {
        return false;
    }
    s.col.floor_shl(0) < area.width as u64 && s.row.floor_shl(0) < area.height as u64
}

/// The places of the objects that resolve and are in view.
fn visible(snap: &Snapshot, plan: &ViewPlan, camera: &Camera, area: Rect, sights: &Vec<Sight>) -> (r: Vec<
    usize,
>)
    requires
        snap.wf(),
        plan.fits(*snap, *camera),
        sights@.len() == snap.object_seq().len(),
    ensures
        r@.len() == shown(*snap, area, sights@, sights@.len() as int).len(),
        forall|k: int|
            0 <= k < r@.len() ==> (#[trigger] r@[k]) == shown(
                *snap,
                area,
                sights@,
                sights@.len() as int,
            )[k],
{
    let mut out: Vec<usize> = Vec::new();
    let mut i: usize = 0;
    while i < sights.len()
        invariant
            plan.fits(*snap, *camera),
            sights@.len() == snap.object_seq().len(),
            i <= sights@.len(),
            out@.len() == shown(*snap, area, sights@, i as int).len(),
            forall|k: int|
                0 <= k < out@.len() ==> (#[trigger] out@[k]) == shown(
                    *snap,
                    area,
                    sights@,
                    i as int,
                )[k],
        decreases sights@.len() - i,
    {
        assert(node_fits(plan.arena, *snap, i as int, plan.nodes@[i as int]));
        if plan.nodes[i].is_some() && sight_in_view(sights[i], area) {
            out.push(i);
        }
        i = i + 1;
    }
    out
}

/// The projected point of an object at a sight.
pub open spec fn point_of(p: ProjectedPoint, o: SceneObject, s: Sight) -> bool {
    &&& p.id == o.id
    &&& p.col == s.col && p.row == s.row
    &&& p.pos_cam == s.pos_cam && p.att_cam == s.att_cam
}

/// The places shown in a view: none where there is no picture to make.
pub open spec fn picture(snap: Snapshot, camera: Camera, area: Rect, optics: Optics) -> Seq<int> {
    if drawable(snap, camera, area, optics.tan_half) {
        shown(snap, area, optics.sights@, snap.object_seq().len() as int)
    } else {
        Seq::empty()
    }
}

/// Project a snapshot's objects into `area` as seen from `camera`: one point per visible object,
/// in the snapshot's order, and a report of what could not be rendered.
pub fn project_points(snap: &Snapshot, camera: &Camera, area: Rect, optics: &Optics) -> (r: (
    Vec<ProjectedPoint>,
    RenderReport,
))
    requires
        snap.wf(),
        optics.sights@.len() == snap.object_seq().len(),
    ensures
        reports(r.1, *snap, *camera, area, optics.tan_half),
        r.0@.len() == picture(*snap, *camera, area, *optics).len(),
        forall|k: int|
            0 <= k < r.0@.len() ==> {
                let i = picture(*snap, *camera, area, *optics)[k];
                point_of(#[trigger] r.0@[k], *snap.object_seq()[i], optics.sights@[i])
            },
        forall|k: int|
            0 <= k < r.0@.len() ==> {
                let i = picture(*snap, *camera, area, *optics)[k];
                let p = #[trigger] r.0@[k];
                &&& p.id@ == snap.object_seq()[i].id@
                &&& p.col == optics.sights@[i].col && p.row == optics.sights@[i].row
                &&& p.pos_cam == optics.sights@[i].pos_cam
                &&& p.att_cam == optics.sights@[i].att_cam
            },
{
    let (report, plan): (RenderReport, Option<ViewPlan>) = project_core(
        snap,
        camera,
        area,
        optics.tan_half,
    );
    let mut out: Vec<ProjectedPoint> = Vec::new();
    let plan: ViewPlan = match plan {
        Some(p) => p,
        None => {
            return (out, report);
        },
    };
    let places: Vec<usize> = visible(snap, &plan, camera, area, &optics.sights);
    let ghost want = picture(*snap, *camera, area, *optics);
    let objects: &Vec<Arc<SceneObject>> = snap.objects();
    proof {
        lemma_shown_in_range(*snap, area, optics.sights@, objects@.len() as int);
    }
    let mut k: usize = 0;
    while k < places.len()
        invariant
            k <= places@.len(),
            out@.len() == k,
            objects@ == snap.object_seq(),
            optics.sights@.len() == objects@.len(),
            places@.len() == want.len(),
            forall|j: int| 0 <= j < places@.len() ==> (#[trigger] places@[j]) == want[j],
            forall|j: int| 0 <= j < want.len() ==> 0 <= (#[trigger] want[j]) < objects@.len(),
            forall|j: int|
                0 <= j < k ==> point_of(
                    #[trigger] out@[j],
                    *objects@[want[j]],
                    optics.sights@[want[j]],
                ),
        decreases places@.len() - k,
    {
        let i: usize = places[k];
        assert(want[k as int] == i);
        let s: Sight = optics.sights[i];
        out.push(
            ProjectedPoint {
                id: objects[i].id.clone(),
                col: s.col,
                row: s.row,
                pos_cam: s.pos_cam,
                att_cam: s.att_cam,
            },
        );
        k = k + 1;
    }
    (out, report)
}

/// The places shown ascend, and each resolves and is in view.
pub proof fn lemma_shown_in_range(snap: Snapshot, area: Rect, sights: Seq<Sight>, n: int)
    ensures
        forall|k: int|
            0 <= k < shown(snap, area, sights, n).len() ==> {
                let i = #[trigger] shown(snap, area, sights, n)[k];
                0 <= i < n && resolves(snap, i) && in_view(sights[i], area)
            },
        forall|a: int, b: int|
            0 <= a < b < shown(snap, area, sights, n).len() ==> (#[trigger] shown(
                snap,
                area,
                sights,
                n,
            )[a]) < (#[trigger] shown(snap, area, sights, n)[b]),
        forall|i: int|
            #![trigger resolves(snap, i)]
            0 <= i < n && resolves(snap, i) && in_view(sights[i], area) ==> shown(
                snap,
                area,
                sights,
                n,
            ).contains(i),
    decreases n,
{
    if n > 0 {
        let t = shown(snap, area, sights, n - 1);
        let s = shown(snap, area, sights, n);
        lemma_shown_in_range(snap, area, sights, n - 1);
        assert forall|i: int|
            #![trigger resolves(snap, i)]
            0 <= i < n && resolves(snap, i) && in_view(sights[i], area) implies s.contains(i) by {
            if i < n - 1 {
                assert(t.contains(i));
                let k = choose|k: int| 0 <= k < t.len() && t[k] == i;
                assert(s[k] == i);
            } else {
                assert(s[s.len() - 1] == i);
            }
        }
        assert forall|k: int| 0 <= k < s.len() implies {
            let i = #[trigger] s[k];
            0 <= i < n && resolves(snap, i) && in_view(sights[i], area)
        } by {
            if k < t.len() {
                assert(s[k] == t[k]);
            }
        }
        assert forall|a: int, b: int| 0 <= a < b < s.len() implies (#[trigger] s[a]) < (
        #[trigger] s[b]) by {
            assert(s[a] == t[a]);
            if b < t.len() {
                assert(s[b] == t[b]);
            }
        }
    }
}

/// An object projected into the viewport with its level of detail resolved.
#[derive(Debug)]
pub struct ProjectedBody {
    /// Which object.
    pub id: ObjectId,
    /// Fractional cell column of the body's centre.
    pub col: Binary64,
    /// Fractional cell row of the body's centre.
    pub row: Binary64,
    /// Position in the camera frame (metres).
    pub pos_cam: Vec3,
    /// Body axes in camera-frame coordinates.
    pub att_cam: Mat3,
    /// The representation chosen for this frame.
    pub lod: Lod,
    /// On-screen equatorial radius (cells): the silhouette's semi-major axis.
    pub screen_radius: Binary64,
    /// On-screen semi-minor axis (cells), along the projected polar axis.
    pub semi_minor: Binary64,
    /// Angle of the major axis from screen-right (radians).
    pub tilt: Binary64,
}

/// One body to rasterize, its centre in fractional cell coordinates local to the area.
#[derive(Clone, Copy, Debug, PartialEq, Eq, Structural)]
pub struct RenderBody {
    /// Fractional cell column of the centre.
    pub col: Binary64,
    /// Fractional cell row of the centre.
    pub row: Binary64,
    /// What to draw there.
    pub kind: RenderKind,
}

/// The drawable form of a body. Semi-axes are in cells, by columns.
#[derive(Clone, Copy, Debug, PartialEq, Eq, Structural)]
pub enum RenderKind {
    /// Sub-resolution: a single sub-cell dot.
    Point,
    /// A filled ellipse silhouette.
    Ellipsoid {
        /// Equatorial on-screen radius (cells).
        semi_major: Binary64,
        /// Polar-direction on-screen radius (cells).
        semi_minor: Binary64,
        /// Major-axis angle from screen-right (radians).
        tilt: Binary64,
    },
}

/// An ellipsoid whose silhouette can be filled: positive semi-axes, and every number finite.
pub open spec fn fillable(b: RenderBody) -> bool {
    let zero = Binary64 { bits: 0 };
    b.kind matches RenderKind::Ellipsoid { semi_major, semi_minor, tilt } && {
        &&& crate::binary64::less(zero, semi_major) && crate::binary64::less(zero, semi_minor)
        &&& crate::binary64::finite(semi_major) && crate::binary64::finite(semi_minor)
        &&& crate::binary64::finite(b.col) && crate::binary64::finite(b.row)
        &&& crate::binary64::finite(tilt)
    }
}

/// A place at squared distance `rho2` from a silhouette's centre, in units of its semi-axes, lies
/// on the silhouette.
pub open spec fn on_silhouette(rho2: Binary64) -> bool {
    crate::binary64::at_most(rho2, Binary64 { bits: crate::binary64::ONE })
}

/// Whether a place at squared distance `rho2` from a silhouette's centre, in units of its
/// semi-axes, lies on the silhouette.
pub fn is_on_silhouette(rho2: Binary64) -> (r: bool)
    ensures
        r == on_silhouette(rho2),
{
    rho2.le(Binary64::from_bits(crate::binary64::ONE))
}

impl RenderBody {
    /// Whether this is an ellipsoid whose silhouette can be filled; one that is degenerate or
    /// not finite draws nothing.
    pub fn is_fillable(&self) -> (r: bool)
        ensures
            r == fillable(*self),
    {
        let zero: Binary64 = Binary64::from_bits(0);
        match self.kind {
            RenderKind::Point => false,
            RenderKind::Ellipsoid { semi_major, semi_minor, tilt } => zero.lt(semi_major)
                && zero.lt(semi_minor) && semi_major.is_finite() && semi_minor.is_finite()
                && self.col.is_finite() && self.row.is_finite() && tilt.is_finite(),
        }
    }
}

impl ProjectedBody {
    /// The draw primitive for this body: a dot, or the oriented filled ellipse.
    pub fn to_render_body(&self) -> (r: RenderBody)
        ensures
            r.col == self.col,
            r.row == self.row,
            r.kind == match self.lod {
                Lod::Point => RenderKind::Point,
                Lod::Ellipsoid => RenderKind::Ellipsoid {
                    semi_major: self.screen_radius,
                    semi_minor: self.semi_minor,
                    tilt: self.tilt,
                },
            },
    {
        let kind: RenderKind = match self.lod {
            Lod::Point => RenderKind::Point,
            Lod::Ellipsoid => RenderKind::Ellipsoid {
                semi_major: self.screen_radius,
                semi_minor: self.semi_minor,
                tilt: self.tilt,
            },
        };
        RenderBody { col: self.col, row: self.row, kind }
    }
}

/// The on-screen radius of an object: that of its shape at a positive depth, zero otherwise.
pub open spec fn screen_radius(o: SceneObject, s: Sight) -> Binary64 {
    if o.shape is Some && crate::binary64::less(Binary64 { bits: 0 }, s.depth) {
        s.radius
    } else {
        Binary64 { bits: 0 }
    }
}

/// The projected body of an object at a sight, given what was remembered of it. Only a shaped
/// object drawn as an ellipsoid takes the silhouette's axis and tilt; for the others these are
/// unused.
pub open spec fn body_of(
    b: ProjectedBody,
    o: SceneObject,
    s: Sight,
    prev: Option<Lod>,
) -> bool {
    &&& b.id == o.id
    &&& b.col == s.col && b.row == s.row
    &&& b.pos_cam == s.pos_cam && b.att_cam == s.att_cam
    &&& b.screen_radius == screen_radius(o, s)
    &&& b.lod == crate::lod::chosen(prev, screen_radius(o, s))
    &&& if b.lod is Ellipsoid && o.shape is Some {
        b.semi_minor == s.semi_minor && b.tilt == s.tilt
    } else {
        b.semi_minor == screen_radius(o, s) && b.tilt == (Binary64 { bits: 0 })
    }
}

/// Project a snapshot's objects with level-of-detail selection. Like [`project_points`], but
/// classifies each shaped object with the help of `mem`, which afterwards remembers exactly the
/// bodies of this picture. Shapeless objects are points. Where there is no picture to make, the
/// memory is left alone.
pub fn project_bodies(
    snap: &Snapshot,
    camera: &Camera,
    area: Rect,
    mem: &mut LodMemory,
    optics: &Optics,
) -> (r: (Vec<ProjectedBody>, RenderReport))
    requires
        snap.wf(),
        old(mem).wf(),
        optics.sights@.len() == snap.object_seq().len(),
    ensures
        final(mem).wf(),
        reports(r.1, *snap, *camera, area, optics.tan_half),
        r.0@.len() == picture(*snap, *camera, area, *optics).len(),
        forall|k: int|
            0 <= k < r.0@.len() ==> {
                let i = picture(*snap, *camera, area, *optics)[k];
                body_of(
                    #[trigger] r.0@[k],
                    *snap.object_seq()[i],
                    optics.sights@[i],
                    crate::lod::remembered(old(mem)@, snap.object_seq()[i].id@),
                )
            },
        forall|k: int|
            0 <= k < r.0@.len() ==> {
                let i = picture(*snap, *camera, area, *optics)[k];
                let (b, o, s) = (#[trigger] r.0@[k], snap.object_seq()[i], optics.sights@[i]);
                &&& b.id@ == o.id@
                &&& b.col == s.col && b.row == s.row
                &&& b.pos_cam == s.pos_cam && b.att_cam == s.att_cam
                &&& b.lod is Ellipsoid && o.shape is Some ==> b.semi_minor == s.semi_minor && b.tilt
                    == s.tilt
                &&& o.shape is Some && positive(s.depth) ==> b.screen_radius == s.radius
            },
        !drawable(*snap, *camera, area, optics.tan_half) ==> final(mem)@ == old(mem)@,
        drawable(*snap, *camera, area, optics.tan_half) ==> remembers(final(mem)@, r.0@),
{
    let (report, plan): (RenderReport, Option<ViewPlan>) = project_core(
        snap,
        camera,
        area,
        optics.tan_half,
    );
    let mut out: Vec<ProjectedBody> = Vec::new();
    let plan: ViewPlan = match plan {
        Some(p) => p,
        None => {
            return (out, report);
        },
    };
    let places: Vec<usize> = visible(snap, &plan, camera, area, &optics.sights);
    let ghost want = picture(*snap, *camera, area, *optics);
    let ghost before = mem@;
    let objects: &Vec<Arc<SceneObject>> = snap.objects();
    let zero: Binary64 = Binary64::from_bits(0);
    let mut seen: Vec<ObjectId> = Vec::new();
    proof {
        lemma_shown_in_range(*snap, area, optics.sights@, objects@.len() as int);
        snap.lemma_wf();
        crate::keyed::lemma_ascending_distinct(objects@);
    }
    let mut k: usize = 0;
    while k < places.len()
        invariant
            k <= places@.len(),
            out@.len() == k,
            seen@.len() == k,
            mem.wf(),
            zero == (Binary64 { bits: 0 }),
            objects@ == snap.object_seq(),
            crate::keyed::distinct::<Seq<char>, Arc<SceneObject>>(objects@),
            optics.sights@.len() == objects@.len(),
            places@.len() == want.len(),
            forall|j: int| 0 <= j < places@.len() ==> (#[trigger] places@[j]) == want[j],
            forall|j: int| 0 <= j < want.len() ==> 0 <= (#[trigger] want[j]) < objects@.len(),
            forall|a: int, b: int|
                0 <= a < b < want.len() ==> (#[trigger] want[a]) < (#[trigger] want[b]),
            forall|j: int|
                0 <= j < k ==> body_of(
                    #[trigger] out@[j],
                    *objects@[want[j]],
                    optics.sights@[want[j]],
                    crate::lod::remembered(before, objects@[want[j]].id@),
                ),
            forall|j: int| 0 <= j < k ==> (#[trigger] seen@[j]) == out@[j].id,
            forall|j: int|
                0 <= j < k ==> mem@.contains_key((#[trigger] out@[j]).id@) && mem@[out@[j].id@]
                    == out@[j].lod,
            forall|i: int|
                0 <= i < objects@.len() && (k > 0 ==> want[k - 1] < i) ==> crate::lod::remembered(
                    mem@,
                    (#[trigger] objects@[i]).id@,
                ) == crate::lod::remembered(before, objects@[i].id@),
        decreases places@.len() - k,
    {
        let i: usize = places[k];
        assert(want[k as int] == i);
        let obj: &Arc<SceneObject> = &objects[i];
        let s: Sight = optics.sights[i];
        let radius: Binary64 = if obj.shape.is_some() && zero.lt(s.depth) {
            s.radius
        } else {
            zero
        };
        assert(crate::lod::remembered(mem@, objects@[i as int].id@) == crate::lod::remembered(
            before,
            objects@[i as int].id@,
        )) by {
            if k > 0 {
                assert(want[k - 1] < want[k as int]);
            }
        }
        let lod: Lod = mem.select(&obj.id, radius);
        let (semi_minor, tilt): (Binary64, Binary64) = if matches!(lod, Lod::Ellipsoid)
            && obj.shape.is_some() {
            (s.semi_minor, s.tilt)
        } else {
            (radius, zero)
        };
        seen.push(obj.id.clone());
        let ghost out0 = out@;
        out.push(
            ProjectedBody {
                id: obj.id.clone(),
                col: s.col,
                row: s.row,
                pos_cam: s.pos_cam,
                att_cam: s.att_cam,
                lod,
                screen_radius: radius,
                semi_minor,
                tilt,
            },
        );
        proof {
            assert forall|j: int| 0 <= j < k + 1 implies mem@.contains_key(
                (#[trigger] out@[j]).id@,
            ) && mem@[out@[j].id@] == out@[j].lod by {
                if j < k {
                    assert(out@[j] == out0[j]);
                    assert(want[j] < want[k as int]);
                    assert(objects@[want[j]].key() != objects@[i as int].key());
                }
            }
            assert forall|x: int| 0 <= x < objects@.len() && want[k as int] < x implies
                crate::lod::remembered(mem@, (#[trigger] objects@[x]).id@)
                == crate::lod::remembered(before, objects@[x].id@) by {
                assert(objects@[x].key() != objects@[i as int].key());
                if k > 0 {
                    assert(want[k - 1] < want[k as int]);
                }
            }
        }
        k = k + 1;
    }
    mem.retain_seen(&seen);
    proof {
        assert forall|k: int| 0 <= k < out@.len() implies ({
            let i = want[k];
            let (b, o, s) = (#[trigger] out@[k], objects@[i], optics.sights@[i]);
            &&& b.id@ == o.id@
            &&& b.col == s.col && b.row == s.row
            &&& b.pos_cam == s.pos_cam && b.att_cam == s.att_cam
            &&& b.lod is Ellipsoid && o.shape is Some ==> b.semi_minor == s.semi_minor && b.tilt
                == s.tilt
            &&& o.shape is Some && positive(s.depth) ==> b.screen_radius == s.radius
        }) by {
            lemma_positive(optics.sights@[want[k]].depth);
        }
        assert(remembers(mem@, out@)) by {
            assert forall|j: int| 0 <= j < out@.len() implies mem@.contains_key(
                (#[trigger] out@[j]).id@,
            ) && mem@[out@[j].id@] == out@[j].lod by {
                assert(seen@[j]@ == out@[j].id@);
            }
            assert forall|id: Seq<char>| mem@.contains_key(id) implies exists|j: int|
                0 <= j < out@.len() && (#[trigger] out@[j]).id@ == id by {
                let j = choose|j: int| 0 <= j < seen@.len() && (#[trigger] seen@[j])@ == id;
                assert(out@[j].id@ == id);
            }
        }
    }
    (out, report)
}

/// The memory holds exactly the bodies, each with its representation.
pub open spec fn remembers(m: Map<Seq<char>, Lod>, bodies: Seq<ProjectedBody>) -> bool {
    &&& forall|j: int|
        0 <= j < bodies.len() ==> m.contains_key((#[trigger] bodies[j]).id@) && m[bodies[j].id@]
            == bodies[j].lod
    &&& forall|id: Seq<char>|
        m.contains_key(id) ==> exists|j: int|
            0 <= j < bodies.len() && (#[trigger] bodies[j]).id@ == id
}

/// The ids of objects that do not resolve are among the orphans.
proof fn lemma_orphans(snap: Snapshot, n: int, id: Seq<char>)
    ensures
        orphans(snap, n).contains(id) <==> exists|i: int|
            0 <= i < n && (#[trigger] snap.object_seq()[i]).id@ == id && !resolves(snap, i),
    decreases n,
{
    if n > 0 {
        let t = orphans(snap, n - 1);
        let last = snap.object_seq()[n - 1].id@;
        lemma_orphans(snap, n - 1, id);
        assert(t.push(last).contains(id) <==> t.contains(id) || last == id) by {
            let p = t.push(last);
            if t.contains(id) {
                let k = choose|k: int| 0 <= k < t.len() && t[k] == id;
                assert(p[k] == id);
            }
            if last == id {
                assert(p[p.len() - 1] == id);
            }
        }
        if exists|i: int|
            0 <= i < n && (#[trigger] snap.object_seq()[i]).id@ == id && !resolves(snap, i) {
            let i = choose|i: int|
                0 <= i < n && (#[trigger] snap.object_seq()[i]).id@ == id && !resolves(snap, i);
            if i < n - 1 {
                assert(snap.object_seq()[i].id@ == id && !resolves(snap, i));
            }
        }
    }
}

/// An object without a shape is always drawn as a point, whatever was remembered of its id.
pub proof fn law_shapeless_objects_are_points(
    b: ProjectedBody,
    o: SceneObject,
    s: Sight,
    prev: Option<Lod>,
)
    requires
        body_of(b, o, s, prev),
        o.shape is None,
    ensures
        b.lod is Point,
{
}

/// Every object is drawn, culled or reported. With a lens and a canvas it is reported exactly
/// when its frame is not in the tree; in a picture it is drawn exactly when its frame is and it
/// lies in view.
pub proof fn law_every_object_is_accounted_for(
    snap: Snapshot,
    camera: Camera,
    area: Rect,
    optics: Optics,
    r: RenderReport,
    i: int,
)
    requires
        snap.wf(),
        reports(r, snap, camera, area, optics.tan_half),
        equipped(camera, area, optics.tan_half),
        0 <= i < snap.object_seq().len(),
    ensures
        id_seq(r.orphan_objects@).contains(snap.object_seq()[i].id@) <==> !resolves(snap, i),
        drawable(snap, camera, area, optics.tan_half) ==> (picture(
            snap,
            camera,
            area,
            optics,
        ).contains(i) <==> resolves(snap, i) && in_view(optics.sights@[i], area)),
{
    let n = snap.object_seq().len() as int;
    let objects = snap.object_seq();
    snap.lemma_wf();
    crate::keyed::lemma_ascending_distinct(objects);
    lemma_orphans(snap, n, objects[i].id@);
    assert forall|j: int| 0 <= j < n && (#[trigger] objects[j]).id@ == objects[i].id@ implies j
        == i by {
        if j != i {
            assert(objects[j].key() != objects[i].key());
        }
    }
    lemma_shown_in_range(snap, area, optics.sights@, n);
}

/// With a lens and a canvas, a clean report means that every frame found a place, every object's
/// frame is among them, and so is the camera's, unless the scene has no frame at all.
pub proof fn law_clean_report_means_all_resolved(
    r: RenderReport,
    snap: Snapshot,
    camera: Camera,
    area: Rect,
    tan_half: Binary64,
)
    requires
        snap.wf(),
        reports(r, snap, camera, area, tan_half),
        equipped(camera, area, tan_half),
        r.clean(),
    ensures
        forall|i: int|
            0 <= i < snap.frame_seq().len() ==> crate::frames::grounded(
                snap.frame_seq(),
                (#[trigger] snap.frame_seq()[i]).uid@,
            ),
        forall|i: int| 0 <= i < snap.object_seq().len() ==> #[trigger] resolves(snap, i),
        snap.frame_seq().len() > 0 ==> drawable(snap, camera, area, tan_half),
{
    let n = snap.object_seq().len() as int;
    assert(crate::frames::keys(r.dropped_frames@).len() == 0);
    assert(id_seq(r.orphan_objects@).len() == 0);
    assert forall|i: int| 0 <= i < snap.frame_seq().len() implies crate::frames::grounded(
        snap.frame_seq(),
        (#[trigger] snap.frame_seq()[i]).uid@,
    ) by {
        crate::frames::law_no_frame_is_lost(snap, i);
    }
    assert forall|i: int| 0 <= i < n implies #[trigger] resolves(snap, i) by {
        lemma_orphans(snap, n, snap.object_seq()[i].id@);
        assert(snap.object_seq()[i].id@ == snap.object_seq()[i].id@);
    }
    if snap.frame_seq().len() > 0 {
        assert(crate::frames::grounded(snap.frame_seq(), snap.frame_seq()[0].uid@));
    }
}

/// Where the area sits on the screen changes neither what is shown nor what is reported: places
/// in the picture are local to the area.
pub proof fn law_area_offset_is_irrelevant(
    snap: Snapshot,
    camera: Camera,
    a: Rect,
    b: Rect,
    optics: Optics,
    r: RenderReport,
)
    requires
        a.width == b.width,
        a.height == b.height,
    ensures
        picture(snap, camera, a, optics) == picture(snap, camera, b, optics),
        reports(r, snap, camera, a, optics.tan_half) == reports(
            r,
            snap,
            camera,
            b,
            optics.tan_half,
        ),
{
    lemma_shown_by_size(snap, a, b, optics.sights@, snap.object_seq().len() as int);
}

/// What is shown depends on the area's size alone.
proof fn lemma_shown_by_size(snap: Snapshot, a: Rect, b: Rect, sights: Seq<Sight>, n: int)
    requires
        a.width == b.width,
        a.height == b.height,
    ensures
        shown(snap, a, sights, n) == shown(snap, b, sights, n),
    decreases n,
{
    if n > 0 {
        lemma_shown_by_size(snap, a, b, sights, n - 1);
    }
}

/// The render state of one view across frames: the scene and the memory of levels of detail.
pub struct ViewState {
    /// The scene to render.
    pub scene: SceneStore,
    /// Per-object memory threaded across frames.
    pub lod: LodMemory,
}

impl ViewState {
    /// A view of a scene with fresh (empty) memory.
    pub fn new(scene: SceneStore) -> (r: Self)
        ensures
            r.scene == scene,
            r.lod.wf(),
            r.lod@ == Map::<Seq<char>, Lod>::empty(),
    {
        ViewState { scene, lod: LodMemory::new() }
    }
}

impl Default for ViewState {
    /// A view of an empty scene.
    fn default() -> (r: Self)
        ensures
            r.scene.wf(),
            r.scene@ == Map::<Seq<char>, crate::scene::LayerModel>::empty(),
            r.lod.wf(),
            r.lod@ == Map::<Seq<char>, Lod>::empty(),
    {
        ViewState { scene: SceneStore::new(), lod: LodMemory::new() }
    }
}

/// The number is at most one: a finite one that is, or negative infinity.
pub open spec fn one_at_most(b: Binary64) -> bool {
    if crate::binary64::finite(b) {
        crate::binary64::scaled(b) <= pow2(1074)
    } else {
        !crate::binary64::nan(b) && crate::binary64::negative(b)
    }
}

/// The number is finite and above zero.
pub open spec fn positive(b: Binary64) -> bool {
    crate::binary64::finite(b) && crate::binary64::scaled(b) > 0
}

/// A silhouette ends where the squared distance from its centre, in units of its semi-axes,
/// exceeds one.
pub proof fn law_silhouette_ends_at_one(rho2: Binary64)
    ensures
        on_silhouette(rho2) <==> one_at_most(rho2),
{
    let one = Binary64 { bits: crate::binary64::ONE };
    crate::binary64::lemma_one();
    if crate::binary64::finite(rho2) {
        crate::binary64::law_rank_orders_values(rho2, one);
    } else {
        crate::binary64::law_order_at_the_edges(one, rho2);
        crate::binary64::law_order_at_the_edges(rho2, one);
    }
}

/// A body can be filled exactly when it is an ellipsoid with positive semi-axes and finite place
/// and tilt.
pub proof fn law_fillable_bodies(b: RenderBody)
    ensures
        b.kind is Point ==> !fillable(b),
        b.kind is Ellipsoid ==> (fillable(b) <==> positive(b.kind->semi_major) && positive(
            b.kind->semi_minor,
        ) && crate::binary64::finite(b.col) && crate::binary64::finite(b.row)
            && crate::binary64::finite(b.kind->tilt)),
{
    let zero = Binary64 { bits: 0 };
    crate::binary64::lemma_one();
    if b.kind is Ellipsoid {
        let (major, minor) = (b.kind->semi_major, b.kind->semi_minor);
        if crate::binary64::finite(major) && crate::binary64::finite(minor) {
            crate::binary64::law_rank_orders_values(zero, major);
            crate::binary64::law_rank_orders_values(zero, minor);
        }
    }
}

/// A number above zero is finite and positive, or infinite.
proof fn lemma_positive(b: Binary64)
    ensures
        positive(b) ==> crate::binary64::less(Binary64 { bits: 0 }, b),
        crate::binary64::finite(b) ==> (positive(b) <==> crate::binary64::less(
            Binary64 { bits: 0 },
            b,
        )),
{
    crate::binary64::lemma_one();
    if crate::binary64::finite(b) {
        crate::binary64::law_rank_orders_values(Binary64 { bits: 0 }, b);
    }
}

/// A sight is in view exactly when it lies more than one metre ahead and, from the area's corner,
/// at a column below its width and a row below its height, neither below zero.
pub proof fn law_view_ends_at_the_edges(s: Sight, area: Rect)
    requires
        crate::binary64::finite(s.depth),
    ensures
        in_view(s, area) <==> crate::binary64::scaled(s.depth) > pow2(1074)
            && crate::binary64::between(s.col, 0, area.width as int, 1) && crate::binary64::between(
            s.row,
            0,
            area.height as int,
            1,
        ),
{
    let (zero, near) = (Binary64 { bits: 0 }, Binary64 { bits: NEAR_PLANE_M });
    vstd::arithmetic::power2::lemma2_to64();
    crate::binary64::lemma_one();
    crate::binary64::law_rank_orders_values(s.depth, near);
    if crate::binary64::finite(s.col) && crate::binary64::finite(s.row) {
        crate::binary64::law_rank_orders_values(s.col, zero);
        crate::binary64::law_rank_orders_values(s.row, zero);
        if !crate::binary64::less(s.col, zero) && !crate::binary64::less(s.row, zero) {
            crate::binary64::lemma_floor_between(s.col, 0, 1);
            crate::binary64::lemma_floor_between(s.row, 0, 1);
            let (c, r) = (crate::binary64::scaled(s.col), crate::binary64::scaled(s.row));
            assert(crate::binary64::floor_shifted(s.col, 0) < area.width as int <==> 1 * c < (
            area.width as int) * pow2(1074));
            assert(crate::binary64::floor_shifted(s.row, 0) < area.height as int <==> 1 * r < (
            area.height as int) * pow2(1074));
        }
    }
}

/// A sight at no finite depth is in view by its column and row alone, unless it lies infinitely far
/// behind.
pub proof fn law_view_beyond_numbers(s: Sight, area: Rect)
    requires
        !crate::binary64::finite(s.depth),
    ensures
        in_view(s, area) <==> (crate::binary64::nan(s.depth) || !crate::binary64::negative(s.depth))
            && crate::binary64::between(s.col, 0, area.width as int, 1) && crate::binary64::between(
            s.row,
            0,
            area.height as int,
            1,
        ),
{
    let far = Sight { depth: Binary64 { bits: 0x4000_0000_0000_0000 }, ..s };
    let near = Binary64 { bits: NEAR_PLANE_M };
    crate::binary64::lemma_one();
    vstd::arithmetic::power2::lemma2_to64_rest();
    vstd::arithmetic::power2::lemma_pow2_pos(1074);
    crate::binary64::law_order_at_the_edges(s.depth, near);
    crate::binary64::law_order_at_the_edges(near, s.depth);
    crate::binary64::lemma_value(
        far.depth,
        1024,
        0x0010_0000_0000_0000,
        0x0008_0000_0000_0000,
    );
    law_view_ends_at_the_edges(far, area);
    crate::binary64::law_rank_orders_values(far.depth, near);
}

/// There is a picture exactly when there are a lens, a canvas of some width and height, and a place
/// for the camera's frame; an object resolves exactly when its own frame has a place.
pub proof fn law_pictures_need_lens_canvas_and_place(
    snap: Snapshot,
    camera: Camera,
    area: Rect,
    tan_half: Binary64,
    i: int,
)
    ensures
        drawable(snap, camera, area, tan_half) <==> lens_ok(camera.fov, tan_half) && area.width > 0
            && area.height > 0 && crate::frames::grounded(snap.frame_seq(), camera.frame@),
        resolves(snap, i) <==> crate::frames::grounded(
            snap.frame_seq(),
            snap.object_seq()[i].frame@,
        ),
{
}

/// A report is clean exactly when it has no orphan, no dropped frame and no missing camera frame;
/// lists of ids and identities are read item by item.
pub proof fn law_clean_reports_are_empty(r: RenderReport, i: int)
    ensures
        r.clean() <==> r.orphan_objects@.len() == 0 && r.dropped_frames@.len() == 0
            && r.unresolved_camera_frame is None,
        id_seq(r.orphan_objects@).len() == r.orphan_objects@.len(),
        0 <= i < r.orphan_objects@.len() ==> id_seq(r.orphan_objects@)[i] == r.orphan_objects@[i]@,
        crate::frames::keys(r.dropped_frames@).len() == r.dropped_frames@.len(),
        0 <= i < r.dropped_frames@.len() ==> crate::frames::keys(r.dropped_frames@)[i]
            == r.dropped_frames@[i]@,
{
}

/// After a picture the memory holds each of its bodies at the level of detail that it was drawn
/// with, and nothing else.
pub proof fn law_memory_holds_the_picture(
    m: Map<Seq<char>, Lod>,
    bodies: Seq<ProjectedBody>,
    j: int,
    id: Seq<char>,
)
    requires
        remembers(m, bodies),
    ensures
        0 <= j < bodies.len() ==> m.contains_key(bodies[j].id@) && m[bodies[j].id@] == bodies[j].lod,
        (forall|k: int| 0 <= k < bodies.len() ==> (#[trigger] bodies[k]).id@ != id)
            ==> !m.contains_key(id),
{
}

/// The level of detail is chosen by the radius that the body is drawn with: the sight's for a
/// shaped object that lies ahead, none for one behind or at no number, and none without a shape.
/// Whatever is not drawn with a silhouette is round.
pub proof fn law_detail_is_by_the_radius_drawn(
    b: ProjectedBody,
    o: SceneObject,
    s: Sight,
    prev: Option<Lod>,
)
    requires
        body_of(b, o, s, prev),
    ensures
        b.id@ == o.id@,
        b.lod == crate::lod::chosen(prev, b.screen_radius),
        o.shape is None ==> crate::binary64::scaled(b.screen_radius) == 0,
        o.shape is Some && crate::binary64::finite(s.depth) && crate::binary64::scaled(s.depth) <= 0
            ==> crate::binary64::scaled(b.screen_radius) == 0,
        o.shape is Some && crate::binary64::nan(s.depth) ==> crate::binary64::scaled(
            b.screen_radius,
        ) == 0,
        o.shape is Some && positive(s.depth) ==> b.screen_radius == s.radius,
        o.shape is None || b.lod == Lod::Point ==> b.semi_minor == b.screen_radius
            && crate::binary64::scaled(b.tilt) == 0,
        o.shape is Some && b.lod == Lod::Ellipsoid ==> b.semi_minor == s.semi_minor && b.tilt
            == s.tilt,
{
    lemma_positive(s.depth);
    crate::binary64::lemma_one();
    crate::binary64::law_order_at_the_edges(Binary64 { bits: 0 }, s.depth);
}

/// A lens has an angle above zero and below π, and a finite tangent of its half.
pub proof fn law_lens_is_below_a_half_turn(fov: Binary64, tan_half: Binary64)
    ensures
        lens_ok(fov, tan_half) ==> crate::binary64::finite(tan_half) && positive(fov)
            && 1_000_000_000_000_000 * crate::binary64::scaled(fov) < 3_141_592_653_589_794 * pow2(
            1074,
        ),
        crate::binary64::finite(tan_half) && positive(fov) && 1_000_000_000_000_000
            * crate::binary64::scaled(fov) <= 3_141_592_653_589_793 * pow2(1074) ==> lens_ok(
            fov,
            tan_half,
        ),
{
    let (zero, pi) = (Binary64 { bits: 0 }, Binary64 { bits: PI });
    vstd::arithmetic::power2::lemma2_to64_rest();
    vstd::arithmetic::power2::lemma_pow2_pos(1074);
    crate::binary64::lemma_one();
    crate::binary64::lemma_value(pi, 1024, 0x0019_21FB_5444_2D18, 0x0008_0000_0000_0000);
    if crate::binary64::finite(fov) {
        crate::binary64::law_rank_orders_values(zero, fov);
        crate::binary64::law_rank_orders_values(fov, pi);
    } else {
        crate::binary64::law_order_at_the_edges(pi, fov);
        crate::binary64::law_order_at_the_edges(zero, fov);
    }
}

/// A shaped object in view is drawn at the size and with the silhouette of its sight: one of at
/// least 1.5 cells of radius as an ellipse with the sight's semi-minor axis and tilt, whatever was
/// remembered of it, and one below 0.75 as a point. One drawn as a point, or without a shape, has
/// no tilt.
pub proof fn law_bodies_have_their_sights_silhouette(
    b: ProjectedBody,
    o: SceneObject,
    s: Sight,
    prev: Option<Lod>,
)
    requires
        body_of(b, o, s, prev),
        positive(s.depth),
        crate::binary64::finite(s.radius),
    ensures
        o.shape is Some ==> b.screen_radius == s.radius,
        o.shape is Some && 2 * crate::binary64::scaled(s.radius) >= 3 * pow2(1074) ==> b.lod
            == Lod::Ellipsoid && b.semi_minor == s.semi_minor && b.tilt == s.tilt,
        o.shape is Some && b.lod == Lod::Ellipsoid ==> b.semi_minor == s.semi_minor && b.tilt
            == s.tilt,
        o.shape is Some && 4 * crate::binary64::scaled(s.radius) < 3 * pow2(1074) ==> b.lod
            == Lod::Point,
        o.shape is None || b.lod == Lod::Point ==> crate::binary64::scaled(b.tilt) == 0,
{
    lemma_positive(s.depth);
    crate::binary64::lemma_one();
    crate::lod::law_size_decides(prev, s.radius);
}

/// Two sights of one object that differ in tilt, or in the semi-minor axis, give silhouettes that
/// differ in it.
pub proof fn law_silhouettes_differ_as_the_sights_do(
    a: ProjectedBody,
    b: ProjectedBody,
    o: SceneObject,
    s: Sight,
    t: Sight,
    prev: Option<Lod>,
)
    requires
        body_of(a, o, s, prev),
        body_of(b, o, t, prev),
        o.shape is Some,
        a.lod == Lod::Ellipsoid,
        b.lod == Lod::Ellipsoid,
    ensures
        a.tilt == b.tilt <==> s.tilt == t.tilt,
        a.semi_minor == b.semi_minor <==> s.semi_minor == t.semi_minor,
        a.col == b.col <==> s.col == t.col,
        a.row == b.row <==> s.row == t.row,
        a.pos_cam == b.pos_cam <==> s.pos_cam == t.pos_cam,
        a.att_cam == b.att_cam <==> s.att_cam == t.att_cam,
{
}

/// What a picture shows, it shows in the snapshot's order, each object once.
pub proof fn law_picture_keeps_the_snapshots_order(
    snap: Snapshot,
    camera: Camera,
    area: Rect,
    optics: Optics,
    a: int,
    b: int,
)
    requires
        0 <= a < b < picture(snap, camera, area, optics).len(),
    ensures
        0 <= picture(snap, camera, area, optics)[a] < picture(snap, camera, area, optics)[b]
            < snap.object_seq().len(),
{
    lemma_shown_in_range(snap, area, optics.sights@, snap.object_seq().len() as int);
}

/// Orphans are reported in the order of their ids, each once.
pub proof fn law_orphans_are_in_order(snap: Snapshot, n: int)
    requires
        snap.wf(),
        0 <= n <= snap.object_seq().len(),
    ensures
        forall|a: int, b: int|
            0 <= a < b < orphans(snap, n).len() ==> crate::text::precedes(
                #[trigger] orphans(snap, n)[a],
                #[trigger] orphans(snap, n)[b],
            ),
        forall|a: int|
            0 <= a < orphans(snap, n).len() ==> exists|i: int|
                0 <= i < n && (#[trigger] snap.object_seq()[i]).id@ == #[trigger] orphans(
                    snap,
                    n,
                )[a],
    decreases n,
{
    let objects = snap.object_seq();
    snap.lemma_wf();
    if n > 0 {
        law_orphans_are_in_order(snap, n - 1);
        let t = orphans(snap, n - 1);
        let u = orphans(snap, n);
        assert forall|a: int| 0 <= a < u.len() implies exists|i: int|
            0 <= i < n && (#[trigger] objects[i]).id@ == #[trigger] u[a] by {
            if a < t.len() {
                assert(u[a] == t[a]);
                let i = choose|i: int| 0 <= i < n - 1 && (#[trigger] objects[i]).id@ == t[a];
                assert(objects[i].id@ == u[a]);
            } else {
                assert(objects[n - 1].id@ == u[a]);
            }
        }
        assert forall|a: int, b: int| 0 <= a < b < u.len() implies crate::text::precedes(
            #[trigger] u[a],
            #[trigger] u[b],
        ) by {
            assert(u[a] == t[a]);
            if b < t.len() {
                assert(u[b] == t[b]);
            } else {
                let i = choose|i: int| 0 <= i < n - 1 && (#[trigger] objects[i]).id@ == t[a];
                assert(crate::text::precedes(objects[i].key(), objects[n - 1].key()));
            }
        }
    }
}

/// What is reported besides orphans: with a lens and a canvas, exactly the frames that are joined
/// to no root, and the camera's own where it is not joined to one though another frame is. Without
/// them, nothing.
pub proof fn law_frames_without_a_place_are_reported(
    r: RenderReport,
    snap: Snapshot,
    camera: Camera,
    area: Rect,
    tan_half: Binary64,
    i: int,
)
    requires
        snap.wf(),
        reports(r, snap, camera, area, tan_half),
        0 <= i < snap.frame_seq().len(),
    ensures
        lens_ok(camera.fov, tan_half) && area.width > 0 && area.height > 0 ==> {
            let placed = crate::frames::grounded(snap.frame_seq(), snap.frame_seq()[i].uid@);
            &&& crate::frames::keys(r.dropped_frames@).contains(snap.frame_seq()[i].uid@)
                <==> !placed
            &&& placed ==> (r.unresolved_camera_frame is Some <==> !crate::frames::grounded(
                snap.frame_seq(),
                camera.frame@,
            ))
            &&& r.unresolved_camera_frame is Some ==> r.unresolved_camera_frame == Some(
                camera.frame,
            )
        },
        !lens_ok(camera.fov, tan_half) || area.width == 0 || area.height == 0
            ==> r.orphan_objects@.len() == 0 && r.dropped_frames@.len() == 0
            && r.unresolved_camera_frame is None,
{
    crate::frames::law_no_frame_is_lost(snap, i);
}

/// A plan looks where the camera points: along its bearing, at the frame that it targets where that
/// has a place, at the object that it targets where one with that id resolves, and nowhere
/// otherwise. Each object that resolves has the node of its own frame, and no other has one.
pub proof fn law_plans_look_at_the_target(
    plan: ViewPlan,
    snap: Snapshot,
    camera: Camera,
    i: int,
)
    requires
        plan.fits(snap, camera),
        0 <= i < snap.object_seq().len(),
    ensures
        camera.target is Bearing ==> plan.look == Look::Bearing,
        camera.target matches CameraTarget::FrameOrigin(uid) ==> if crate::frames::grounded(
            snap.frame_seq(),
            uid@,
        ) {
            plan.look matches Look::Frame(n) && n < plan.arena.nodes@.len()
                && snap.frame_seq()[plan.arena.nodes@[n as int].frame as int].uid@ == uid@
        } else {
            plan.look == Look::Nowhere
        },
        camera.target matches CameraTarget::Object(id) ==> (snap.object_seq()[i].id@ == id@
            && crate::frames::grounded(snap.frame_seq(), snap.object_seq()[i].frame@) ==> (
        plan.look matches Look::Object(k) && k < snap.object_seq().len()
            && snap.object_seq()[k as int].id@ == id@)),
        camera.target is Object ==> plan.look is Object || plan.look is Nowhere,
        plan.nodes@[i] is Some <==> crate::frames::grounded(
            snap.frame_seq(),
            snap.object_seq()[i].frame@,
        ),
        plan.nodes@[i] matches Some(n) ==> n < plan.arena.nodes@.len()
            && snap.frame_seq()[plan.arena.nodes@[n as int].frame as int].uid@
            == snap.object_seq()[i].frame@,
        snap.frame_seq()[plan.arena.nodes@[plan.eye as int].frame as int].uid@ == camera.frame@,
{
    assert(node_fits(plan.arena, snap, i, plan.nodes@[i]));
    assert(resolves(snap, i) <==> crate::frames::grounded(
        snap.frame_seq(),
        snap.object_seq()[i].frame@,
    ));
    if camera.target is Object {
        let object = snap.object_seq()[i];
        assert(object.id@ == snap.object_seq()[i].id@);
    }
}

} // verus!
