//! Projection: which objects are drawn, where, at what level of detail, and what is reported.
//!
//! The floating-point half of the camera — composing transforms, the perspective divide — is done
//! here with the real frame tree, and what is decided from it by the library.

use std::collections::HashMap;
use std::f64::consts::{FRAC_1_SQRT_2, FRAC_PI_2};
use std::sync::Arc;

use astrodyn_frame_doc::{
    CanonicalRotation, Conventions, DocHeader, FrameDocument, FrameRecord, Origin, TransRecord,
    SCHEMA_VERSION,
};
use astrodyn_frames::{FrameTree, RefFrameRot, RefFrameState, RefFrameTrans};
use astrodyn_quantities as quantities;
use astrodyn_quantities::{
    BodyFrame, JeodQuat, Lvlh, Mars, Moon, Ned, Planet, PlanetFixed, PlanetInertial, RootInertial,
    SecondsSince, Topocentric, Vehicle, TDB,
};
use astrotui::binary64::Binary64;
use astrotui::camera::{alternate_up, Camera, CameraTarget, LogZoom, UpHint, ViewBasis};
use astrotui::frame_doc::{apply_document, ApplyError};
use astrotui::ident::{FrameClass, FrameRole, FrameUid, ObjectId};
use astrotui::lod::{Lod, LodMemory};
use astrotui::render::{
    project_bodies, project_core, project_points, Look, Mat3, Optics, ProjectedBody,
    ProjectedPoint, Rect, RenderBody, RenderKind, RenderReport, Sight, ViewPlan, ViewState,
};
use astrotui::scene::{
    Attitude, BodyShape, BodyState, Epoch, ObjectMeta, PlanetShape, SceneStore, Snapshot, Vec3,
};
use glam::{DMat3, DQuat, DVec3};

/// The bit pattern of a number.
fn num(x: f64) -> Binary64 {
    Binary64::from_bits(x.to_bits())
}

/// The number of a bit pattern.
fn float(b: Binary64) -> f64 {
    f64::from_bits(b.to_bits())
}

/// A vector by bit patterns.
fn vec3(v: DVec3) -> Vec3 {
    Vec3 { x: num(v.x), y: num(v.y), z: num(v.z) }
}

/// A vector of numbers.
fn dvec3(v: Vec3) -> DVec3 {
    DVec3::new(float(v.x), float(v.y), float(v.z))
}

/// A matrix by bit patterns.
fn mat3(m: DMat3) -> Mat3 {
    Mat3 { x_axis: vec3(m.x_axis), y_axis: vec3(m.y_axis), z_axis: vec3(m.z_axis) }
}

/// The quaternion of an orientation; a matrix becomes one in floating-point arithmetic.
fn dquat(a: Attitude) -> DQuat {
    match a {
        Attitude::Quat { x, y, z, w } => DQuat::from_xyzw(float(x), float(y), float(z), float(w)),
        Attitude::Matrix { x_axis, y_axis, z_axis } => DQuat::from_mat3(&DMat3::from_cols(
            dvec3(x_axis),
            dvec3(y_axis),
            dvec3(z_axis),
        )),
    }
}

/// The epoch that the frame tree stamps its nodes with.
fn seconds_since(e: Epoch) -> SecondsSince<TDB> {
    SecondsSince::from_seconds(float(e.as_seconds()))
}

/// The library's ellipsoid.
fn shape(s: &astrodyn_planet::PlanetShape) -> PlanetShape {
    PlanetShape {
        name: s.name.to_string(),
        mu: num(s.mu),
        r_eq: num(s.r_eq()),
        r_pol: num(s.r_pol()),
        flat_coeff: num(s.flat_coeff),
    }
}

/// The frame identity as the quantities crate holds it.
fn out_uid(u: &FrameUid) -> quantities::FrameUid {
    let class = match u.class {
        FrameClass::RootInertial => quantities::FrameClass::RootInertial,
        FrameClass::PlanetInertial => quantities::FrameClass::PlanetInertial,
        FrameClass::BarycenterInertial => quantities::FrameClass::BarycenterInertial,
        FrameClass::PlanetFixed => quantities::FrameClass::PlanetFixed,
        FrameClass::Topocentric => quantities::FrameClass::Topocentric,
        FrameClass::Body => quantities::FrameClass::Body,
        FrameClass::OrbitRelative => quantities::FrameClass::OrbitRelative,
        FrameClass::External => quantities::FrameClass::External,
    };
    let role = match &u.role {
        FrameRole::Primary => quantities::FrameRole::Primary,
        FrameRole::AltInertial => quantities::FrameRole::AltInertial,
        FrameRole::AltPfix => quantities::FrameRole::AltPfix,
        FrameRole::CoreBody => quantities::FrameRole::CoreBody,
        FrameRole::CompositeBody => quantities::FrameRole::CompositeBody,
        FrameRole::Structure => quantities::FrameRole::Structure,
        FrameRole::VehiclePoint => quantities::FrameRole::VehiclePoint,
        FrameRole::Lvlh => quantities::FrameRole::Lvlh,
        FrameRole::Ned => quantities::FrameRole::Ned,
        FrameRole::Custom(name) => quantities::FrameRole::Custom(name.clone().into()),
    };
    let tag = match &u.tag {
        Some(name) => quantities::Tag::Named(name.clone().into()),
        None => quantities::Tag::None,
    };
    quantities::FrameUid { namespace: quantities::Namespace(u.namespace), class, role, tag }
}

/// The library's frame identity.
fn uid(u: quantities::FrameUid) -> FrameUid {
    let class = match u.class {
        quantities::FrameClass::RootInertial => FrameClass::RootInertial,
        quantities::FrameClass::PlanetInertial => FrameClass::PlanetInertial,
        quantities::FrameClass::BarycenterInertial => FrameClass::BarycenterInertial,
        quantities::FrameClass::PlanetFixed => FrameClass::PlanetFixed,
        quantities::FrameClass::Topocentric => FrameClass::Topocentric,
        quantities::FrameClass::Body => FrameClass::Body,
        quantities::FrameClass::OrbitRelative => FrameClass::OrbitRelative,
        quantities::FrameClass::External => FrameClass::External,
        other => panic!("unknown class {other:?}"),
    };
    let role = match u.role {
        quantities::FrameRole::Primary => FrameRole::Primary,
        quantities::FrameRole::CompositeBody => FrameRole::CompositeBody,
        quantities::FrameRole::Lvlh => FrameRole::Lvlh,
        quantities::FrameRole::Ned => FrameRole::Ned,
        other => panic!("unexpected role {other:?}"),
    };
    let tag = match u.tag {
        quantities::Tag::Named(name) => Some(name.to_string()),
        quantities::Tag::None => None,
    };
    FrameUid { namespace: u.namespace.0, class, role, tag }
}

/// A dolly `metres` from the anchor.
fn zoom_from_distance(metres: f64) -> LogZoom {
    LogZoom::from_distance(num(metres), num(metres.log10()))
}

/// The eye's distance from the anchor, in metres.
fn zoom_distance(zoom: &LogZoom) -> f64 {
    10f64.powf(float(zoom.log10()))
}

/// The dolly moved by a number of decades.
fn zoom_nudge(zoom: LogZoom, decades: f64) -> LogZoom {
    zoom.nudge(num(float(zoom.log10()) + decades))
}

/// The unit view axis of a target, or `None` where it cannot be formed.
fn forward(target: &CameraTarget, look_at_cam: Option<DVec3>) -> Option<DVec3> {
    target.look_vector(look_at_cam.map(vec3)).map(dvec3).and_then(DVec3::try_normalize)
}

/// The screen axes in floating point.
struct Axes {
    right: DVec3,
    up: DVec3,
    forward: DVec3,
}

/// A right-handed orthonormal basis from a view axis and an up hint, whatever the two are.
fn orthonormal_view(forward: DVec3, up_hint: DVec3) -> Axes {
    let f = forward.try_normalize().unwrap_or(DVec3::NEG_Z);
    let up0 = up_hint.try_normalize().unwrap_or(DVec3::Z);
    let mut right = f.cross(up0);
    if let Some(alternate) = alternate_up(vec3(f), num(right.length_squared())) {
        right = f.cross(dvec3(alternate));
    }
    let right = right.normalize();
    let up = right.cross(f);
    Axes { right, up, forward: f }
}

/// The view basis of a camera for a resolved view axis.
fn view_basis(camera: &Camera, forward: DVec3) -> ViewBasis {
    let axes = orthonormal_view(forward, dvec3(camera.up.vector()));
    ViewBasis { right: vec3(axes.right), up: vec3(axes.up), forward: vec3(axes.forward) }
}

/// The state of a frame relative to its parent, as the frame tree holds it.
fn frame_state(s: &BodyState) -> RefFrameState {
    let mut q = JeodQuat::from_glam(dquat(s.attitude));
    q.normalize(); // a matrix that became a quaternion may have drifted off unit norm
    RefFrameState {
        trans: RefFrameTrans { position: dvec3(s.position), velocity: dvec3(s.velocity) },
        rot: RefFrameRot {
            q_parent_this: q,
            t_parent_this: q.left_quat_to_transformation(),
            ang_vel_this: DVec3::ZERO,
        },
    }
}

/// The frame tree of a plan, and its id for each of the plan's nodes.
fn frame_tree(snap: &Snapshot, plan: &ViewPlan) -> (FrameTree, Vec<usize>) {
    let mut tree = FrameTree::new();
    let mut ids = Vec::with_capacity(plan.arena.nodes.len());
    for node in &plan.arena.nodes {
        let frame = &snap.frames()[node.frame];
        let (uid, name) = (out_uid(&frame.uid), frame.uid.label());
        ids.push(match node.parent {
            None => tree.add_root_uid(uid, name),
            Some(parent) => tree.add_child_uid(
                ids[parent],
                uid,
                name,
                frame_state(&frame.state),
                frame.epoch.map(seconds_since),
            ),
        });
    }
    (tree, ids)
}

/// The silhouette of an oriented oblate spheroid: its semi-minor axis (cells, along the projected
/// polar axis) and the tilt of its major axis.
fn oblate_silhouette(
    shape: &PlanetShape,
    att_cam: &DMat3,
    view: &ViewBasis,
    to_body: DVec3,
    screen_radius: f64,
) -> (f64, f64) {
    let Some(polar) = (*att_cam * DVec3::Z).try_normalize() else {
        return (screen_radius, 0.0);
    };
    let Some(ray) = to_body.try_normalize() else {
        return (screen_radius, 0.0);
    };
    let cos_phi = polar.dot(ray);
    let sin2_phi = (1.0 - cos_phi * cos_phi).max(0.0);
    let e_sq = astrodyn_planet::PlanetShape::new(
        "",
        float(shape.mu),
        float(shape.r_eq),
        float(shape.r_pol),
        float(shape.flat_coeff),
    )
    .e_ellip_sq();
    let semi_minor = screen_radius * (1.0 - e_sq * sin2_phi).max(0.0).sqrt();
    let px = polar.dot(dvec3(view.right));
    let py = -polar.dot(dvec3(view.up));
    let tilt =
        if px.hypot(py) < 1e-6 { 0.0 } else { py.atan2(px) + std::f64::consts::FRAC_PI_2 };
    (semi_minor, tilt)
}

/// The sight of an object that has no place in the picture.
fn blank_sight() -> Sight {
    let zero: Binary64 = num(0.0);
    let origin: Vec3 = Vec3::zero();
    Sight {
        pos_cam: origin,
        att_cam: Mat3 { x_axis: origin, y_axis: origin, z_axis: origin },
        depth: zero,
        col: zero,
        row: zero,
        radius: zero,
        semi_minor: zero,
        tilt: zero,
    }
}

/// The sights of a snapshot's objects under a plan.
fn sights(snap: &Snapshot, camera: &Camera, area: Rect, tan_half: f64, plan: &ViewPlan) -> Vec<Sight> {
    let (tree, ids) = frame_tree(snap, plan);
    let eye_id = ids[plan.eye];
    // One transform per occupied frame: its origin in camera coordinates, and frame to camera.
    let mut by_node: HashMap<usize, (DVec3, DMat3)> = HashMap::new();
    let mut transform = |node: usize| {
        *by_node.entry(node).or_insert_with(|| {
            let s = tree.compute_relative_state(eye_id, ids[node]);
            (s.trans.position, s.rot.t_parent_this.transpose())
        })
    };
    let placed: Vec<Option<(DVec3, DMat3)>> = snap
        .objects()
        .iter()
        .zip(&plan.nodes)
        .map(|(obj, node)| {
            node.map(|n| {
                let (origin, r_frame_to_cam) = transform(n);
                let pos_cam = origin + r_frame_to_cam * dvec3(obj.state.position);
                let body_to_frame = JeodQuat::from_glam(dquat(obj.state.attitude))
                    .left_quat_to_transformation()
                    .transpose();
                (pos_cam, r_frame_to_cam * body_to_frame)
            })
        })
        .collect();
    let look_at_cam = match plan.look {
        Look::Bearing | Look::Nowhere => None,
        Look::Frame(node) => Some(transform(node).0),
        Look::Object(i) => placed[i].map(|(pos_cam, _)| pos_cam),
    };
    let axis = forward(&camera.target, look_at_cam).unwrap_or(DVec3::NEG_Z);
    let anchor = look_at_cam.unwrap_or(DVec3::ZERO);
    let view = view_basis(camera, axis);
    let eye = anchor - axis * zoom_distance(&camera.zoom);
    let (w, h) = (f64::from(area.width), f64::from(area.height));
    let half = w / 2.0;
    snap.objects()
        .iter()
        .zip(placed)
        .map(|(obj, place)| {
            let Some((pos_cam, att_cam)) = place else {
                return blank_sight();
            };
            let rel = pos_cam - eye; // both camera-relative, so small near the eye
            let depth = rel.dot(dvec3(view.forward));
            let x = rel.dot(dvec3(view.right));
            let y = rel.dot(dvec3(view.up));
            let col = half + (x / (depth * tan_half)) * half;
            let row = h / 2.0 - (y / (depth * tan_half)) * half; // +y up, rows down
            let (radius, (semi_minor, tilt)) = match &obj.shape {
                Some(shape) => {
                    let radius = float(shape.ellipsoid.r_eq) / (depth * tan_half) * half;
                    (radius, oblate_silhouette(&shape.ellipsoid, &att_cam, &view, rel, radius))
                }
                None => (0.0, (0.0, 0.0)),
            };
            Sight {
                pos_cam: vec3(pos_cam),
                att_cam: mat3(att_cam),
                depth: num(depth),
                col: num(col),
                row: num(row),
                radius: num(radius),
                semi_minor: num(semi_minor),
                tilt: num(tilt),
            }
        })
        .collect()
}

/// What floating-point arithmetic gives for a view of the scene: the lens, and one sight per
/// object.
fn optics(snap: &Snapshot, camera: &Camera, area: Rect) -> Optics {
    let tan_half = (float(camera.fov) * 0.5).tan();
    let (_report, plan) = project_core(snap, camera, area, num(tan_half));
    let sights = match plan {
        Some(plan) => sights(snap, camera, area, tan_half, &plan),
        None => snap.objects().iter().map(|_| blank_sight()).collect(),
    };
    Optics { tan_half: num(tan_half), sights }
}


fn area() -> Rect {
    Rect { x: 0, y: 0, width: 20, height: 10 } // centre at (10, 5)
}

fn wide(x: u16, y: u16, width: u16, height: u16) -> Rect {
    Rect { x, y, width, height }
}

fn at(x: f64, y: f64) -> BodyState {
    at3(x, y, 0.0)
}

fn at3(x: f64, y: f64, z: f64) -> BodyState {
    BodyState { position: vec3(DVec3::new(x, y, z)), ..BodyState::default() }
}

// Distinct, real frame identities: `root` is the inertial root, `child` any child frame, and
// `absent` is never placed in a scene.
fn root() -> FrameUid {
    uid(quantities::FrameUid::of::<RootInertial>())
}

fn child() -> FrameUid {
    uid(quantities::FrameUid::of::<PlanetFixed<Moon>>())
}

fn absent() -> FrameUid {
    uid(quantities::FrameUid::of::<PlanetFixed<Mars>>())
}

fn epoch(t: f64) -> Epoch {
    Epoch::from_seconds(num(t))
}

// A scene of one frame (root) with the given objects.
fn scene(objects: &[(&str, BodyState)]) -> Arc<Snapshot> {
    let mut store = SceneStore::new();
    let mut tx = store.writer("p".into()).begin(epoch(0.0));
    tx.frame(root(), None, BodyState::default());
    for (id, st) in objects {
        tx.object((*id).into(), root(), *st, ObjectMeta::default());
    }
    tx.commit(&mut store);
    store.snapshot()
}

// A camera in `frame` with +Y up (screen right is +X, up is +Y), the eye dollied `dist` m back
// along −Z, with the default 40° field of view: an object `x` m off-axis at depth `dist` projects
// to `col = w/2 + (x/(dist·tan20°))·(w/2)`.
fn persp(frame: FrameUid, dist: f64) -> Camera {
    Camera {
        up: UpHint::Direction(vec3(DVec3::Y)),
        zoom: zoom_from_distance(dist),
        ..Camera::overview(frame)
    }
}

fn points(snap: &Snapshot, camera: &Camera, area: Rect) -> (Vec<ProjectedPoint>, RenderReport) {
    project_points(snap, camera, area, &optics(snap, camera, area))
}

fn bodies(
    snap: &Snapshot,
    camera: &Camera,
    area: Rect,
    mem: &mut LodMemory,
) -> (Vec<ProjectedBody>, RenderReport) {
    project_bodies(snap, camera, area, mem, &optics(snap, camera, area))
}

fn find<'a>(pts: &'a [ProjectedPoint], id: &str) -> &'a ProjectedPoint {
    pts.iter().find(|p| p.id.as_str() == id).unwrap()
}

fn ids(pts: &[ProjectedPoint]) -> Vec<&str> {
    pts.iter().map(|p| p.id.as_str()).collect()
}

fn cell(p: &ProjectedPoint) -> (f64, f64) {
    (float(p.col), float(p.row))
}

#[test]
fn log_zoom_round_trips_and_nudges_by_decades() {
    // Powers round differently from library to library, so compare within a bound.
    assert!((zoom_distance(&zoom_from_distance(1e7)) - 1e7).abs() < 1.0);
    assert!((zoom_distance(&LogZoom::default()) - 1e7).abs() < 1.0);
    // A nudge of one decade multiplies the distance by 10.
    let z = zoom_from_distance(1000.0);
    assert!((zoom_distance(&zoom_nudge(z, 1.0)) - 10_000.0).abs() < 1e-6);
    assert!((zoom_distance(&zoom_nudge(z, -1.0)) - 100.0).abs() < 1e-9);
    assert!((float(z.log10()) - 3.0).abs() < 1e-12);
    // A distance that is not finite or not positive gives a finite positive dolly.
    assert!(zoom_distance(&zoom_from_distance(0.0)) > 0.0);
    assert!(zoom_distance(&zoom_from_distance(-5.0)) > 0.0);
    assert!(zoom_distance(&zoom_from_distance(f64::NAN)).is_finite());
    assert_eq!(LogZoom::from_log10(num(f64::INFINITY)), LogZoom::default());
    // The distance stays finite even for an extreme exponent.
    assert!(zoom_distance(&LogZoom::from_log10(num(1e9))).is_finite());
    assert!(zoom_distance(&LogZoom::from_log10(num(1e9))) > 0.0);
}

#[test]
fn log_zoom_is_clamped_to_its_band() {
    assert_eq!(float(LogZoom::from_log10(num(1e9)).log10()), 307.0);
    assert_eq!(float(LogZoom::from_log10(num(-1e9)).log10()), -307.0);
    assert_eq!(float(LogZoom::from_log10(num(307.0)).log10()), 307.0);
    assert_eq!(float(LogZoom::from_log10(num(-12.5)).log10()), -12.5);
    assert_eq!(float(LogZoom::from_log10(num(f64::NAN)).log10()), 7.0);
    assert_eq!(float(LogZoom::from_log10(num(f64::NEG_INFINITY)).log10()), 7.0);
    assert_eq!(float(zoom_from_distance(0.0).log10()), -307.0);
    assert_eq!(float(zoom_from_distance(f64::INFINITY).log10()), -307.0);
    assert_eq!(float(zoom_nudge(LogZoom::default(), 1000.0).log10()), 307.0);
    let again = LogZoom::from_log10(LogZoom::from_log10(num(400.0)).log10());
    assert_eq!(again, LogZoom::from_log10(num(400.0)));
}

#[test]
fn projects_to_viewport_centre_and_perspective_offset() {
    let snap = scene(&[("origin", at(0.0, 0.0)), ("right", at(100.0, 0.0))]);
    let (pts, _) = points(&snap, &persp(root(), 1000.0), area());

    let origin = find(&pts, "origin");
    assert_eq!(cell(origin), (10.0, 5.0)); // on-axis → screen centre
    let right = find(&pts, "right");
    // col = 10 + (100/(1000·tan20°))·10 = 12.747477… ; row stays centred (y = 0).
    assert!((float(right.col) - 12.747_477_4).abs() < 1e-5, "got {}", float(right.col));
    assert_eq!(float(right.row), 5.0);
}

#[test]
fn on_axis_object_is_centred_regardless_of_area_offset() {
    // The same object projects to the same local place wherever the area sits.
    let snap = scene(&[("o", at(0.0, 0.0))]);
    let cam = persp(root(), 1000.0);
    let (p0, _) = points(&snap, &cam, wide(0, 0, 20, 10));
    let (p1, _) = points(&snap, &cam, wide(7, 3, 20, 10));
    assert_eq!(cell(&p0[0]), (10.0, 5.0));
    assert_eq!(cell(&p1[0]), (10.0, 5.0)); // independent of area.x/area.y
}

#[test]
fn camera_relative_state_composes_through_child_frame() {
    // A child frame offset +100 m in x under root; an object +5 m in x within it.
    let mut store = SceneStore::new();
    let mut tx = store.writer("p".into()).begin(epoch(0.0));
    tx.frame(root(), None, BodyState::default())
        .frame(child(), Some(root()), at(100.0, 0.0))
        .object("probe".into(), child(), at(5.0, 0.0), ObjectMeta::default());
    tx.commit(&mut store);
    let snap = store.snapshot();

    // From the root camera, the probe sits at 105 m in x.
    let (pts, _) = points(&snap, &persp(root(), 1000.0), wide(0, 0, 400, 10));
    let probe = find(&pts, "probe");
    assert_eq!(float(probe.pos_cam.x), 105.0);
    // col = 200 + (105/(1000·tan20°))·200 = 257.6970…
    assert!((float(probe.col) - 257.697_026).abs() < 1e-3, "got {}", float(probe.col));
    assert_eq!(float(probe.row), 5.0);

    // From a camera riding the child frame, the same probe is only 5 m in x.
    let (pts, _) = points(&snap, &persp(child(), 1000.0), wide(0, 0, 40, 10));
    let probe = find(&pts, "probe");
    assert_eq!(float(probe.pos_cam.x), 5.0);
    // col = 20 + (5/(1000·tan20°))·20 = 20.274748…
    assert!((float(probe.col) - 20.274_748).abs() < 1e-5, "got {}", float(probe.col));
    assert_eq!(float(probe.row), 5.0);
}

#[test]
fn dolly_shrinks_apparent_offset_as_the_eye_pulls_back() {
    // A farther dolly makes an off-axis object converge toward the centre.
    let snap = scene(&[("p", at(100.0, 0.0))]);
    let (near, _) = points(&snap, &persp(root(), 1_000.0), area());
    let (far, _) = points(&snap, &persp(root(), 1_000_000.0), area());
    let near_off = float(near[0].col) - 10.0;
    let far_off = float(far[0].col) - 10.0;
    assert!((near_off - 2.747_477_4).abs() < 1e-5);
    assert!(far_off > 0.0 && far_off < 0.01, "far ~centre, got {far_off}");
    assert!(near_off > far_off * 100.0); // ~1000× the offset at 1000× nearer
}

#[test]
fn perspective_parallax_depth_divide() {
    // Two objects at equal x but different depth: the nearer one is more off-centre.
    let snap = scene(&[("near", at3(100.0, 0.0, 0.0)), ("far", at3(100.0, 0.0, -500.0))]);
    let (pts, _) = points(&snap, &persp(root(), 1000.0), area());
    let near = find(&pts, "near");
    let far = find(&pts, "far");
    // near depth = 1000, far depth = 1500 (eye at z=+1000 looking −Z).
    assert!(float(near.col) > float(far.col) && float(far.col) > 10.0);
}

#[test]
fn near_plane_culls_objects_at_or_behind_the_eye() {
    // Eye at z = +1000 looking −Z: an object on the far (+z) side is behind the eye.
    let snap = scene(&[("front", at3(0.0, 0.0, 0.0)), ("behind", at3(0.0, 0.0, 2000.0))]);
    let (pts, _) = points(&snap, &persp(root(), 1000.0), area());
    assert_eq!(ids(&pts), ["front"]);
}

#[test]
fn wider_fov_moves_objects_toward_centre() {
    let snap = scene(&[("p", at(100.0, 0.0))]);
    let narrow = persp(root(), 1000.0); // 40°
    let wide = Camera { fov: num(80f64.to_radians()), ..persp(root(), 1000.0) };
    let (n, _) = points(&snap, &narrow, area());
    let (w, _) = points(&snap, &wide, area());
    let (n, w) = (float(n[0].col) - 10.0, float(w[0].col) - 10.0);
    assert!(n > w && w > 0.0);
}

#[test]
fn numerically_safe_across_many_orders_of_magnitude() {
    // Eye dollied 1e11 m (≈ 1 AU) back: a near object and one 1e9 m off-axis both flow through
    // the divide at that depth.
    let snap = scene(&[("near", at(50.0, 0.0)), ("far", at(1.0e9, 0.0))]);
    let (pts, _) = points(&snap, &persp(root(), 1.0e11), area());
    for p in &pts {
        assert!(float(p.col).is_finite() && float(p.row).is_finite());
    }
    // col = 10 + (1e9/(1e11·tan20°))·10 = 10.274747…
    let far = find(&pts, "far");
    assert!((float(far.col) - 10.274_747_7).abs() < 1e-4, "got {}", float(far.col));
    assert!(pts.iter().any(|p| p.id.as_str() == "near"));
}

#[test]
fn tracked_object_target_recentres_on_it() {
    // `a` is off-axis but, being the anchor, projects to the centre; `b` is off the view axis.
    let snap = scene(&[("a", at(100.0, 0.0)), ("b", at3(100.0, 0.0, 50.0))]);
    let cam = Camera {
        target: CameraTarget::Object("a".into()),
        up: UpHint::Direction(vec3(DVec3::Y)),
        zoom: zoom_from_distance(1000.0),
        ..Camera::overview(root())
    };
    let (pts, _) = points(&snap, &cam, area());
    assert_eq!(cell(find(&pts, "a")), (10.0, 5.0)); // the tracked object is centred
    assert!(float(find(&pts, "b").col) > 10.0); // the other one is off-centre relative to it
}

#[test]
fn bearing_target_sets_the_view_axis() {
    // The eye looks along +X; an object along +X is centred.
    let snap = scene(&[("ahead", at(100.0, 0.0))]);
    let cam = Camera {
        target: CameraTarget::Bearing(vec3(DVec3::X)),
        up: UpHint::Direction(vec3(DVec3::Z)),
        zoom: zoom_from_distance(1000.0),
        ..Camera::overview(root())
    };
    let (pts, _) = points(&snap, &cam, area());
    assert_eq!(cell(find(&pts, "ahead")), (10.0, 5.0));
}

// A unit sphere at the origin: under `persp(root, dist)` its on-screen radius is
// `27.47474/dist` cells.
fn unit_sphere() -> astrodyn_planet::PlanetShape {
    astrodyn_planet::PlanetShape::new("unit", 1.0, 1.0, 1.0, 0.0)
}

fn shaped_scene(s: astrodyn_planet::PlanetShape) -> Arc<Snapshot> {
    let mut store = SceneStore::new();
    let mut tx = store.writer("p".into()).begin(epoch(0.0));
    tx.frame(root(), None, BodyState::default()).object(
        "b".into(),
        root(),
        at(0.0, 0.0),
        ObjectMeta { shape: Some(BodyShape::ellipsoid(shape(&s))), ..ObjectMeta::default() },
    );
    tx.commit(&mut store);
    store.snapshot()
}

// `dist` giving on-screen radius `s` for the unit sphere in the 20×10 area.
fn dist_for(s: f64) -> f64 {
    27.474_74 / s
}

fn lod_at(s: f64, mem: &mut LodMemory) -> Lod {
    let (b, _) =
        bodies(&shaped_scene(unit_sphere()), &persp(root(), dist_for(s)), area(), mem);
    b[0].lod
}

#[test]
fn lod_first_frame_uses_the_band_midpoint() {
    // Nothing remembered: classify against (GROW+SHRINK)/2 = 1.125 cells.
    assert_eq!(lod_at(1.3, &mut LodMemory::new()), Lod::Ellipsoid); // > 1.125
    assert_eq!(lod_at(1.0, &mut LodMemory::new()), Lod::Point); // < 1.125
}

#[test]
fn lod_hysteresis_holds_inside_the_band() {
    // Once an ellipsoid, a size inside the band (0.75..1.5) does not drop back to a point.
    let mut up = LodMemory::new();
    assert_eq!(lod_at(2.0, &mut up), Lod::Ellipsoid); // grow
    assert_eq!(lod_at(1.0, &mut up), Lod::Ellipsoid); // in band → stays
    // Once a point, a size inside the band does not grow.
    let mut down = LodMemory::new();
    assert_eq!(lod_at(0.4, &mut down), Lod::Point); // start small
    assert_eq!(lod_at(1.0, &mut down), Lod::Point); // in band → stays
}

#[test]
fn lod_grows_and_shrinks_outside_the_band() {
    let mut m = LodMemory::new();
    assert_eq!(lod_at(0.4, &mut m), Lod::Point);
    assert_eq!(lod_at(1.6, &mut m), Lod::Ellipsoid); // ≥ GROW (1.5)
    assert_eq!(lod_at(0.5, &mut m), Lod::Point); // < SHRINK (0.75)
}

#[test]
fn shapeless_object_is_always_a_point() {
    // A close object without a shape has no angular size.
    let snap = scene(&[("x", at(0.0, 0.0))]);
    let (b, _) = bodies(&snap, &persp(root(), 100.0), area(), &mut LodMemory::new());
    assert_eq!(b[0].lod, Lod::Point);
}

#[test]
fn lod_memory_prunes_objects_that_leave_the_scene() {
    let mut m = LodMemory::new();
    assert_eq!(lod_at(2.0, &mut m), Lod::Ellipsoid); // remembers "b"
    // A picture with the root frame but no objects prunes it.
    let empty = {
        let mut store = SceneStore::new();
        let mut tx = store.writer("p".into()).begin(epoch(0.0));
        tx.frame(root(), None, BodyState::default());
        tx.commit(&mut store);
        store.snapshot()
    };
    let _ = bodies(&empty, &persp(root(), 10.0), area(), &mut m);
    // "b" reappears at a band size below the midpoint: had it been kept it would stay.
    assert_eq!(lod_at(1.0, &mut m), Lod::Point);
}

#[test]
fn lod_thresholds_are_exact() {
    let id = ObjectId::new("b");
    let below = |x: f64| f64::from_bits(x.to_bits() - 1);
    for (size, want) in [(1.125, Lod::Ellipsoid), (below(1.125), Lod::Point)] {
        assert_eq!(LodMemory::new().select(&id, num(size)), want, "first at {size}");
    }
    for (size, want) in [(1.5, Lod::Ellipsoid), (below(1.5), Lod::Point)] {
        let mut m = LodMemory::new();
        m.select(&id, num(0.0));
        assert_eq!(m.select(&id, num(size)), want, "growing at {size}");
    }
    for (size, want) in [(0.75, Lod::Ellipsoid), (below(0.75), Lod::Point)] {
        let mut m = LodMemory::new();
        m.select(&id, num(9.0));
        assert_eq!(m.select(&id, num(size)), want, "shrinking at {size}");
        // Asked again at the same size, the answer stays.
        assert_eq!(m.select(&id, num(size)), want, "again at {size}");
    }
    // A size that is not a number is at no threshold: a point stays, an ellipsoid stays.
    let mut m = LodMemory::new();
    assert_eq!(m.select(&id, num(f64::NAN)), Lod::Point);
    m.select(&id, num(9.0));
    assert_eq!(m.select(&id, num(f64::NAN)), Lod::Ellipsoid);
    // What is not among the seen is forgotten.
    m.select(&"other".into(), num(9.0));
    m.retain_seen(&vec!["other".into()]);
    assert_eq!(m.select(&id, num(1.0)), Lod::Point);
    assert_eq!(m.select(&"other".into(), num(1.0)), Lod::Ellipsoid);
}

#[test]
fn oblate_silhouette_is_circular_pole_on_and_squashed_equator_on() {
    // r_eq 2, r_pol 1: flattening 0.5, e² = 0.75.
    let s = shape(&astrodyn_planet::PlanetShape::new("ob", 1.0, 2.0, 1.0, 0.5));
    let view =
        ViewBasis { right: vec3(DVec3::X), up: vec3(DVec3::Y), forward: vec3(DVec3::NEG_Z) };
    let ray = DVec3::NEG_Z; // straight ahead along the view axis
    let sr = 10.0;

    // Pole-on: a circle, tilt irrelevant (0).
    let (minor, tilt) = oblate_silhouette(&s, &DMat3::IDENTITY, &view, ray, sr);
    assert!((minor - sr).abs() < 1e-9);
    assert_eq!(tilt, 0.0);

    // Equator-on: squashed to sr·r_pol/r_eq, with the major axis vertical (π/2).
    let eq = DMat3::from_rotation_y(FRAC_PI_2);
    let (minor, tilt) = oblate_silhouette(&s, &eq, &view, ray, sr);
    assert!((minor - sr * 0.5).abs() < 1e-6, "minor {minor}");
    assert!((tilt - FRAC_PI_2).abs() < 1e-9);
}

#[test]
fn an_ellipsoid_takes_the_silhouette_and_a_point_does_not() {
    // Seen along the pole the oblate body is round; on its side it is squashed to a half.
    let s = astrodyn_planet::PlanetShape::new("ob", 1.0, 2.0, 1.0, 0.5);
    let snap = shaped_scene(s);
    let side = Camera {
        target: CameraTarget::Bearing(vec3(DVec3::X)),
        up: UpHint::Direction(vec3(DVec3::Z)),
        zoom: zoom_from_distance(10.0),
        ..Camera::overview(root())
    };
    let (b, report) = bodies(&snap, &side, area(), &mut LodMemory::new());
    assert!(report.is_clean());
    assert_eq!(b[0].lod, Lod::Ellipsoid);
    let major = float(b[0].screen_radius);
    assert!((major - 2.0 / (10.0 * (20f64).to_radians().tan()) * 10.0).abs() < 1e-4);
    assert!((float(b[0].semi_minor) - major * 0.5).abs() < 1e-9);
    let drawn = b[0].to_render_body();
    assert_eq!(
        drawn,
        RenderBody {
            col: b[0].col,
            row: b[0].row,
            kind: RenderKind::Ellipsoid {
                semi_major: b[0].screen_radius,
                semi_minor: b[0].semi_minor,
                tilt: b[0].tilt,
            },
        }
    );
    assert!(drawn.is_fillable());

    // Far away it is a point, whose axis is the radius and whose tilt is zero.
    let far = Camera { zoom: zoom_from_distance(1000.0), ..persp(root(), 1.0) };
    let (b, _) = bodies(&snap, &far, area(), &mut LodMemory::new());
    assert_eq!(b[0].lod, Lod::Point);
    assert_eq!(b[0].semi_minor, b[0].screen_radius);
    assert_eq!(b[0].tilt, num(0.0));
    let drawn = b[0].to_render_body();
    assert_eq!(drawn.kind, RenderKind::Point);
    assert!(!drawn.is_fillable());
}

#[test]
fn only_finite_positive_ellipses_can_be_filled() {
    let body = |col: f64, semi_major: f64, semi_minor: f64, tilt: f64| RenderBody {
        col: num(col),
        row: num(1.0),
        kind: RenderKind::Ellipsoid {
            semi_major: num(semi_major),
            semi_minor: num(semi_minor),
            tilt: num(tilt),
        },
    };
    assert!(body(1.0, 2.0, 1.0, 0.0).is_fillable());
    assert!(body(-5.0, 2.0, 1.0, -3.0).is_fillable());
    assert!(!body(1.0, 0.0, 1.0, 0.0).is_fillable());
    assert!(!body(1.0, 2.0, -1.0, 0.0).is_fillable());
    assert!(!body(1.0, f64::INFINITY, 1.0, 0.0).is_fillable());
    assert!(!body(1.0, 2.0, f64::NAN, 0.0).is_fillable());
    assert!(!body(f64::NAN, 2.0, 1.0, 0.0).is_fillable());
    assert!(!body(1.0, 2.0, 1.0, f64::INFINITY).is_fillable());
}

#[test]
fn one_transform_per_frame_applies_to_all_its_objects() {
    // Two objects share an offset child frame; each picks up that frame's transform.
    let mut store = SceneStore::new();
    let mut tx = store.writer("p".into()).begin(epoch(0.0));
    tx.frame(root(), None, BodyState::default())
        .frame(child(), Some(root()), at(100.0, 0.0))
        .object("nose".into(), child(), at(1.0, 0.0), ObjectMeta::default())
        .object("tail".into(), child(), at(-1.0, 0.0), ObjectMeta::default());
    tx.commit(&mut store);
    let snap = store.snapshot();

    let (pts, _) = points(&snap, &persp(root(), 1000.0), wide(0, 0, 400, 10));
    assert_eq!(float(find(&pts, "nose").pos_cam.x), 101.0); // 100 (frame) + 1 (in-frame)
    assert_eq!(float(find(&pts, "tail").pos_cam.x), 99.0); // 100 (frame) - 1 (in-frame)
}

#[test]
fn non_finite_positions_are_culled() {
    let snap = scene(&[
        ("ok", at(0.0, 0.0)),
        ("nan", at(f64::NAN, 0.0)),
        ("inf", at(f64::INFINITY, 0.0)),
    ]);
    let (pts, _) = points(&snap, &persp(root(), 1000.0), area());
    assert_eq!(ids(&pts), ["ok"]); // dropped, not mapped to (0,0)
}

#[test]
fn offscreen_objects_are_culled() {
    let snap = scene(&[("near", at(0.0, 0.0)), ("far", at(1_000.0, 0.0))]);
    let (pts, _) = points(&snap, &persp(root(), 1000.0), area());
    assert_eq!(ids(&pts), ["near"]); // "far" is off the 20-wide viewport
}

#[test]
fn the_viewport_is_closed_on_the_left_and_open_on_the_right() {
    let snap = scene(&[("p", at(0.0, 0.0))]);
    let cam = persp(root(), 1000.0);
    let seen = |col: f64, row: f64, depth: f64| -> usize {
        let mut o = optics(&snap, &cam, area());
        o.sights[0].col = num(col);
        o.sights[0].row = num(row);
        o.sights[0].depth = num(depth);
        project_points(&snap, &cam, area(), &o).0.len()
    };
    let below = |x: f64| f64::from_bits(x.to_bits() - 1);
    assert_eq!(seen(0.0, 0.0, 2.0), 1);
    assert_eq!(seen(-0.0, -0.0, 2.0), 1);
    assert_eq!(seen(-1e-300, 0.0, 2.0), 0);
    assert_eq!(seen(0.0, -1e-300, 2.0), 0);
    assert_eq!(seen(below(20.0), below(10.0), 2.0), 1);
    assert_eq!(seen(20.0, 0.0, 2.0), 0);
    assert_eq!(seen(0.0, 10.0, 2.0), 0);
    assert_eq!(seen(f64::NAN, 0.0, 2.0), 0);
    assert_eq!(seen(0.0, f64::INFINITY, 2.0), 0);
    // The near plane, at 1 m, is culled too.
    assert_eq!(seen(0.0, 0.0, 1.0), 0);
    assert_eq!(seen(0.0, 0.0, f64::from_bits(1.0f64.to_bits() + 1)), 1);
    assert_eq!(seen(0.0, 0.0, -2.0), 0);
}

#[test]
fn unknown_camera_frame_yields_nothing_but_is_reported() {
    let snap = scene(&[("a", at(0.0, 0.0))]);
    // `absent` is a valid identity that is not in this scene.
    let (pts, report) = points(&snap, &Camera::overview(absent()), area());
    assert!(pts.is_empty());
    assert_eq!(report.unresolved_camera_frame, Some(absent()));
    assert!(!report.is_clean());
}

#[test]
fn degenerate_inputs_yield_nothing() {
    // A degenerate lens draws nothing.
    let snap = scene(&[("a", at(0.0, 0.0))]);
    let bad_fov = Camera { fov: num(0.0), ..Camera::overview(root()) };
    assert!(points(&snap, &bad_fov, area()).0.is_empty());
    // An empty scene is not an error.
    let empty = SceneStore::new().snapshot();
    let (pts, report) = points(&empty, &Camera::overview(root()), area());
    assert!(pts.is_empty() && report.is_clean());
}

#[test]
fn without_a_lens_or_a_canvas_there_is_no_picture() {
    let snap = scene(&[("a", at(0.0, 0.0))]);
    for fov in [-1.0, -0.0, std::f64::consts::PI, 4.0, f64::NAN, f64::INFINITY] {
        let cam = Camera { fov: num(fov), ..Camera::overview(absent()) };
        let (pts, report) = points(&snap, &cam, area());
        assert!(pts.is_empty() && report.is_clean(), "fov {fov}");
    }
    for none in [wide(0, 0, 0, 10), wide(0, 0, 20, 0)] {
        let (pts, report) = points(&snap, &Camera::overview(absent()), none);
        assert!(pts.is_empty() && report.is_clean());
        assert!(project_core(&snap, &Camera::overview(root()), none, num(0.3)).1.is_none());
    }
    // Memory is left alone where there is no picture.
    let mut m = LodMemory::new();
    assert_eq!(lod_at(2.0, &mut m), Lod::Ellipsoid);
    let _ = bodies(&snap, &Camera::overview(root()), wide(0, 0, 0, 0), &mut m);
    assert_eq!(lod_at(1.0, &mut m), Lod::Ellipsoid);
}

#[test]
fn orphan_object_is_reported_not_silently_dropped() {
    let mut store = SceneStore::new();
    let mut tx = store.writer("p".into()).begin(epoch(0.0));
    tx.frame(root(), None, BodyState::default()).object(
        "ghost".into(),
        absent(),
        at(0.0, 0.0),
        ObjectMeta::default(),
    );
    tx.commit(&mut store);
    let (pts, report) = points(&store.snapshot(), &Camera::overview(root()), area());
    assert!(pts.is_empty());
    let orphans: Vec<&str> = report.orphan_objects.iter().map(|o| o.as_str()).collect();
    assert_eq!(orphans, ["ghost"]);
}

#[test]
fn objects_without_any_frame_are_reported() {
    let mut store = SceneStore::new();
    let mut tx = store.writer("p".into()).begin(epoch(0.0));
    tx.object("ghost".into(), root(), BodyState::default(), ObjectMeta::default());
    tx.commit(&mut store);
    let camera = Camera::overview(root());
    let (pts, report) = points(&store.snapshot(), &camera, area());
    assert!(pts.is_empty());
    let orphans: Vec<&str> = report.orphan_objects.iter().map(|o| o.as_str()).collect();
    assert_eq!(orphans, ["ghost"]);
    assert!(report.dropped_frames.is_empty() && report.unresolved_camera_frame.is_none());
    assert!(!report.is_clean());
}

#[test]
fn orphans_are_reported_beside_an_absent_camera_frame() {
    let mut store = SceneStore::new();
    let mut tx = store.writer("p".into()).begin(epoch(0.0));
    tx.frame(root(), None, BodyState::default())
        .object("ghost".into(), child(), at(0.0, 0.0), ObjectMeta::default())
        .object("here".into(), root(), at(0.0, 0.0), ObjectMeta::default());
    tx.commit(&mut store);
    let (pts, report) = points(&store.snapshot(), &Camera::overview(absent()), area());
    assert!(pts.is_empty());
    let orphans: Vec<&str> = report.orphan_objects.iter().map(|o| o.as_str()).collect();
    assert_eq!(orphans, ["ghost"]);
    assert_eq!(report.unresolved_camera_frame, Some(absent()));
}

#[test]
fn frame_with_unresolvable_parent_is_reported_dropped() {
    // `child`'s declared parent is never added to the scene, so `child` can't be placed.
    let mut store = SceneStore::new();
    let mut tx = store.writer("p".into()).begin(epoch(0.0));
    tx.frame(root(), None, BodyState::default())
        .frame(child(), Some(absent()), at(1.0, 0.0))
        .object("here".into(), root(), at(0.0, 0.0), ObjectMeta::default());
    tx.commit(&mut store);
    let (_pts, report) = points(&store.snapshot(), &Camera::overview(root()), area());
    assert_eq!(report.dropped_frames, vec![child()]);
}

#[test]
fn cycles_and_bad_roots_are_dropped_and_named() {
    let mut store = SceneStore::new();
    let mut tx = store.writer("p".into()).begin(epoch(0.0));
    let body = |tag: &str| FrameUid {
        namespace: 0,
        class: FrameClass::Body,
        role: FrameRole::CompositeBody,
        tag: Some(tag.to_string()),
    };
    // A body may not root a tree; what hangs below it, and a cycle, cannot be placed either.
    tx.frame(root(), None, BodyState::default())
        .frame(body("a"), None, at(1.0, 0.0))
        .frame(body("b"), Some(body("a")), at(1.0, 0.0))
        .frame(body("c"), Some(body("d")), at(1.0, 0.0))
        .frame(body("d"), Some(body("c")), at(1.0, 0.0))
        .frame(body("e"), Some(root()), at(1.0, 0.0))
        .frame(body("f"), Some(body("e")), at(1.0, 0.0))
        .object("on_f".into(), body("f"), at(0.0, 0.0), ObjectMeta::default())
        .object("on_b".into(), body("b"), at(0.0, 0.0), ObjectMeta::default());
    tx.commit(&mut store);
    let snap = store.snapshot();
    let (pts, report) = points(&snap, &persp(root(), 1000.0), area());
    assert_eq!(ids(&pts), ["on_f"]);
    assert_eq!(float(pts[0].pos_cam.x), 2.0);
    assert_eq!(report.orphan_objects, vec![ObjectId::new("on_b")]);
    let mut dropped: Vec<&str> =
        report.dropped_frames.iter().map(|f| f.tag.as_deref().unwrap()).collect();
    assert_eq!(dropped[0], "a"); // the bad root comes first
    dropped.sort_unstable();
    assert_eq!(dropped, ["a", "b", "c", "d"]);
}

#[test]
fn the_plan_names_the_eye_and_what_it_looks_at() {
    let mut store = SceneStore::new();
    let mut tx = store.writer("p".into()).begin(epoch(0.0));
    tx.frame(root(), None, BodyState::default())
        .frame(child(), Some(root()), at(100.0, 0.0))
        .object("a".into(), child(), at(0.0, 0.0), ObjectMeta::default())
        .object("b".into(), absent(), at(0.0, 0.0), ObjectMeta::default());
    tx.commit(&mut store);
    let snap = store.snapshot();
    let plan = |target: CameraTarget| -> ViewPlan {
        let cam = Camera { target, ..Camera::overview(child()) };
        project_core(&snap, &cam, area(), num(0.3)).1.unwrap()
    };
    let frame_at =
        |p: &ViewPlan, node: usize| snap.frames()[p.arena.nodes[node].frame].uid.clone();

    let p = plan(CameraTarget::FrameOrigin(root()));
    assert_eq!(frame_at(&p, p.eye), child());
    assert!(matches!(p.look, Look::Frame(n) if frame_at(&p, n) == root()));
    assert_eq!(p.nodes.len(), 2);
    assert_eq!(frame_at(&p, p.nodes[0].unwrap()), child());
    assert_eq!(p.nodes[1], None);
    // A parent's node comes before its child's.
    for (n, node) in p.arena.nodes.iter().enumerate() {
        assert!(node.parent.is_none_or(|parent| parent < n));
    }
    assert_eq!(plan(CameraTarget::FrameOrigin(absent())).look, Look::Nowhere);
    assert_eq!(plan(CameraTarget::Object("a".into())).look, Look::Object(0));
    assert_eq!(plan(CameraTarget::Object("b".into())).look, Look::Nowhere);
    assert_eq!(plan(CameraTarget::Object("none".into())).look, Look::Nowhere);
    assert_eq!(plan(CameraTarget::Bearing(vec3(DVec3::X))).look, Look::Bearing);
}

// A vehicle marker for the vehicle presets.
#[derive(Debug, Clone, Copy)]
struct TestProbe;
impl quantities::__macro_support::VehicleSealed for TestProbe {}
impl quantities::__macro_support::Vehicle for TestProbe {
    const NAME: &'static str = "TestProbe";
}

fn approx(a: Vec3, b: DVec3) -> bool {
    dvec3(a).abs_diff_eq(b, 1e-12)
}

#[test]
fn presets_name_the_expected_frames_with_default_target_and_up() {
    let probe = <TestProbe as Vehicle>::NAME;
    let moon = <Moon as Planet>::NAME;
    let cases = [
        (Camera::solar_overview(), quantities::FrameUid::of::<RootInertial>()),
        (Camera::inertial_chase(moon), quantities::FrameUid::of::<PlanetInertial<Moon>>()),
        (Camera::body_fixed(moon), quantities::FrameUid::of::<PlanetFixed<Moon>>()),
        (Camera::orbit_relative(probe), quantities::FrameUid::of::<Lvlh<TestProbe>>()),
        (Camera::vehicle_ned(probe), quantities::FrameUid::of::<Ned<TestProbe>>()),
        (Camera::onboard(probe), quantities::FrameUid::of::<BodyFrame<TestProbe>>()),
    ];
    for (cam, want) in cases {
        // The identity names what the frame type names, and converts back to it.
        assert_eq!(out_uid(&cam.frame), want, "preset frame uid");
        assert_eq!(cam.frame, uid(want.clone()), "preset frame uid");
        // Default target is the camera's own frame origin; default up is frame-up.
        assert_eq!(cam.target, CameraTarget::FrameOrigin(uid(want.clone())));
        assert_eq!(cam.up, UpHint::FrameUp);
        assert_eq!(cam.frame.label(), want.to_string());
        assert_eq!(cam.zoom, LogZoom::default());
        assert_eq!(float(cam.fov), 0.698_131_7);
    }
    // Distinct planets yield distinct identities (the tag carries the parameter).
    let mars = <Mars as Planet>::NAME;
    assert_ne!(Camera::body_fixed(moon).frame, Camera::body_fixed(mars).frame);
    assert!(!Camera::body_fixed(moon).frame.same(&Camera::body_fixed(mars).frame));
}

#[test]
fn local_horizon_sites_have_distinct_value_keyed_identities() {
    let moon = <Moon as Planet>::NAME;
    let mars = <Mars as Planet>::NAME;
    // Two sites on one planet must not collide, and a given (planet, site) is stable.
    let a = Camera::local_horizon(moon, "shackleton");
    let b = Camera::local_horizon(moon, "malapert");
    assert_ne!(a.frame, b.frame, "two lunar sites must not alias");
    assert_eq!(
        a.frame,
        Camera::local_horizon(moon, "shackleton").frame,
        "same (planet, site) is stable across calls"
    );
    // Same site key on a different planet is still distinct.
    assert_ne!(a.frame, Camera::local_horizon(mars, "shackleton").frame);
    // It is a topocentric identity, and not the planet-only one.
    assert_eq!(a.frame.class, FrameClass::Topocentric);
    assert_ne!(a.frame, uid(quantities::FrameUid::of::<Topocentric<Moon>>()));
    // Default target/up match the other presets.
    assert_eq!(a.target, CameraTarget::FrameOrigin(a.frame.clone()));
    assert_eq!(a.up, UpHint::FrameUp);
    // It is the identity that a producer mints for the site.
    let minted = quantities::frame_identity::topocentric_site_frame_uid(moon, "shackleton");
    assert_eq!(out_uid(&a.frame), minted);
    assert_eq!(a.frame.namespace, 1);
    assert_eq!(a.frame.tag.as_deref(), Some("Moon/site:shackleton"));
}

#[test]
fn view_basis_matches_projection_convention() {
    // Eye looks down −Z with +Y up → +X right, +Y up: the screen axes.
    let cam = Camera { up: UpHint::Direction(vec3(DVec3::Y)), ..Camera::overview(root()) };
    let b = view_basis(&cam, DVec3::NEG_Z);
    assert!(approx(b.forward, DVec3::NEG_Z));
    assert!(approx(b.right, DVec3::X));
    assert!(approx(b.up, DVec3::Y));
    // Right-handed with the eye down its own −Z: right × up == −forward.
    assert!(approx(vec3(dvec3(b.right).cross(dvec3(b.up))), -dvec3(b.forward)));
}

#[test]
fn default_frame_up_is_z_so_top_down_is_the_gimbal_case() {
    // Looking straight down is then up ∥ forward; the guard must still yield a basis.
    let b = view_basis(&Camera::overview(root()), DVec3::NEG_Z);
    assert_eq!(Camera::overview(root()).up, UpHint::FrameUp);
    assert!(approx(b.forward, DVec3::NEG_Z));
    for v in [b.right, b.up, b.forward] {
        assert!((dvec3(v).length() - 1.0).abs() < 1e-12);
    }
    assert!(dvec3(b.right).dot(dvec3(b.forward)).abs() < 1e-12);
    assert!(approx(vec3(dvec3(b.right).cross(dvec3(b.up))), -dvec3(b.forward)));
}

#[test]
fn view_basis_is_orthonormal_for_an_oblique_axis() {
    let cam = Camera {
        up: UpHint::Direction(vec3(DVec3::new(0.0, 1.0, 0.2))),
        ..Camera::overview(root())
    };
    let b = view_basis(&cam, DVec3::new(1.0, 2.0, -3.0));
    for v in [b.right, b.up, b.forward] {
        assert!((dvec3(v).length() - 1.0).abs() < 1e-12, "unit length");
    }
    assert!(dvec3(b.right).dot(dvec3(b.up)).abs() < 1e-12);
    assert!(dvec3(b.right).dot(dvec3(b.forward)).abs() < 1e-12);
    assert!(dvec3(b.up).dot(dvec3(b.forward)).abs() < 1e-12);
    assert!(approx(vec3(dvec3(b.right).cross(dvec3(b.up))), -dvec3(b.forward))); // right-handed
}

#[test]
fn view_basis_gimbal_guard_when_up_parallel_to_forward() {
    let cam = Camera { up: UpHint::Direction(vec3(DVec3::Z)), ..Camera::overview(root()) };
    let b = view_basis(&cam, DVec3::Z); // forward == up
    assert!(approx(b.forward, DVec3::Z));
    assert!((dvec3(b.right).length() - 1.0).abs() < 1e-12);
    assert!(dvec3(b.right).dot(dvec3(b.forward)).abs() < 1e-12, "right ⟂ forward");
    assert!(approx(vec3(dvec3(b.right).cross(dvec3(b.up))), -dvec3(b.forward))); // right-handed
}

#[test]
fn view_basis_gimbal_guard_uses_y_alternate_when_forward_along_x() {
    let cam = Camera { up: UpHint::Direction(vec3(DVec3::X)), ..Camera::overview(root()) };
    let b = view_basis(&cam, DVec3::X); // forward == up == +X
    assert!(approx(b.forward, DVec3::X));
    assert!(approx(b.right, DVec3::Z)); // X × Y = Z
    assert!(approx(b.up, DVec3::Y));
    for v in [b.right, b.up, b.forward] {
        assert!((dvec3(v).length() - 1.0).abs() < 1e-12);
    }
    assert!(approx(vec3(dvec3(b.right).cross(dvec3(b.up))), -dvec3(b.forward))); // right-handed
}

#[test]
fn view_basis_zero_forward_falls_back_to_minus_z() {
    let cam = Camera { up: UpHint::Direction(vec3(DVec3::Y)), ..Camera::overview(root()) };
    let b = view_basis(&cam, DVec3::ZERO);
    assert!(approx(b.forward, DVec3::NEG_Z)); // degenerate axis → frame look axis
    assert!(approx(b.right, DVec3::X));
    assert!(approx(b.up, DVec3::Y));
}

#[test]
fn the_alternate_up_turns_at_nine_tenths() {
    let below = |x: f64| f64::from_bits(x.to_bits() - 1);
    let up = |x: f64, sq: f64| {
        alternate_up(vec3(DVec3::new(x, 0.0, 0.0)), num(sq)).map(dvec3)
    };
    assert_eq!(up(0.0, 1e-6), None);
    assert_eq!(up(0.0, 1.0), None);
    assert_eq!(up(0.0, f64::NAN), None);
    assert_eq!(up(0.0, below(1e-6)), Some(DVec3::X));
    assert_eq!(up(below(0.9), 0.0), Some(DVec3::X));
    assert_eq!(up(-below(0.9), 0.0), Some(DVec3::X));
    assert_eq!(up(0.9, 0.0), Some(DVec3::Y));
    assert_eq!(up(-0.9, 0.0), Some(DVec3::Y));
    assert_eq!(dvec3(UpHint::FrameUp.vector()), DVec3::Z);
}

#[test]
fn camera_target_forward_resolution() {
    // A bearing resolves itself (normalized), ignoring the supplied point.
    let bearing = CameraTarget::Bearing(vec3(DVec3::new(0.0, 0.0, -5.0)));
    assert_eq!(forward(&bearing, None), Some(DVec3::NEG_Z));
    // The others resolve from the look-at point in camera coordinates.
    let origin = CameraTarget::FrameOrigin(child());
    assert_eq!(forward(&origin, Some(DVec3::new(0.0, 10.0, 0.0))), Some(DVec3::Y));
    let chased = CameraTarget::Object("probe".into());
    assert_eq!(forward(&chased, Some(DVec3::new(3.0, 0.0, 0.0))), Some(DVec3::X));
    // Degenerate look axes (no point, or target coincident with the eye) yield None.
    assert_eq!(forward(&origin, None), None);
    assert_eq!(forward(&chased, Some(DVec3::ZERO)), None);
    assert_eq!(forward(&CameraTarget::Bearing(vec3(DVec3::ZERO)), None), None);
}

#[test]
fn space_view_projects_snapshot_to_the_renderer() {
    let mut store = SceneStore::new();
    let mut tx = store.writer("p".into()).begin(epoch(0.0));
    tx.frame(root(), None, BodyState::default())
        .object("origin".into(), root(), at(0.0, 0.0), ObjectMeta::default())
        .object("right".into(), root(), at(100.0, 0.0), ObjectMeta::default());
    tx.commit(&mut store);

    // The centres that a view hands to its renderer.
    let cam = persp(root(), 1000.0);
    let mut state = ViewState::new(store);
    let snap = state.scene.snapshot();
    let (seen, _report) = bodies(&snap, &cam, area(), &mut state.lod);
    let mut got: Vec<(f64, f64)> = seen
        .iter()
        .map(ProjectedBody::to_render_body)
        .map(|b| (float(b.col), float(b.row)))
        .collect();
    got.sort_by(|x, y| x.0.total_cmp(&y.0));
    // Same projection as for points: origin at the centre, "right" off-centre.
    assert_eq!(got[0], (10.0, 5.0));
    assert!((got[1].0 - 12.747_477_4).abs() < 1e-5 && got[1].1 == 5.0);
}

// A frame on the wire.
fn rec(
    name: &str,
    uid_index: u32,
    parent: Option<u32>,
    position: [f64; 3],
    rotation: CanonicalRotation,
) -> FrameRecord {
    FrameRecord {
        name: name.into(),
        uid_index,
        parent,
        epoch: Some(0.0),
        trans: TransRecord { position, velocity: [0.0; 3] },
        rotation,
        ang_vel_this: [0.0; 3],
        origin: Origin::Injected,
    }
}

fn header() -> DocHeader {
    DocHeader {
        schema_version: SCHEMA_VERSION,
        conventions: Conventions::current(),
        simtime: 0.0,
        tai_tjt_at_epoch: 0.0,
    }
}

fn dmat3(m: Mat3) -> DMat3 {
    DMat3::from_cols(dvec3(m.x_axis), dvec3(m.y_axis), dvec3(m.z_axis))
}

fn attitude(q: DQuat) -> Attitude {
    Attitude::Quat { x: num(q.x), y: num(q.y), z: num(q.z), w: num(q.w) }
}

// A rotation on a frame of a document must survive the whole way to the camera, and orient both
// an object's position and its body axes. Asserted against hand-typed references, so that a slip
// of convention fails loudly.
#[test]
fn rotating_frame_orients_position_and_attitude_through_camera() {
    let out_root = quantities::FrameUid::of::<RootInertial>;
    let out_child = quantities::FrameUid::of::<PlanetFixed<Moon>>;
    let ident = || CanonicalRotation::Quat([1.0, 0.0, 0.0, 0.0]);
    // A 90° rotation about Z, scalar first: it orients the child so that its +x axis points
    // along root −y.
    let offset = [10.0, 20.0, 30.0];
    let z90 = || CanonicalRotation::Quat([FRAC_1_SQRT_2, 0.0, 0.0, FRAC_1_SQRT_2]);
    let doc = FrameDocument {
        header: header(),
        uids: vec![out_root(), out_child()],
        records: vec![
            rec("root", 0, None, [0.0; 3], ident()),
            rec("moon_fixed", 1, Some(0), offset, z90()),
        ],
    };
    // Over the wire and back before applying.
    let doc = FrameDocument::from_json_str(&doc.to_json_string()).expect("valid json");

    let mut store = SceneStore::new();
    let w = store.writer("wire".into());
    apply_document(&doc, &w, &mut store).unwrap();
    // Two objects in the rotated child, from another layer: `probe` with identity attitude,
    // `tilted` with its own +90° about Z.
    let d = 5.0;
    let mut tx = store.writer("obj".into()).begin(epoch(0.0));
    tx.object(
        "probe".into(),
        child(),
        BodyState {
            position: vec3(DVec3::new(d, 0.0, 0.0)),
            velocity: Vec3::zero(),
            attitude: attitude(DQuat::IDENTITY),
        },
        ObjectMeta::default(),
    )
    .object(
        "tilted".into(),
        child(),
        BodyState {
            position: Vec3::zero(),
            velocity: Vec3::zero(),
            attitude: attitude(DQuat::from_rotation_z(FRAC_PI_2)),
        },
        ObjectMeta::default(),
    );
    tx.commit(&mut store);

    let snap = store.snapshot();
    let (pts, report) = points(&snap, &Camera::overview(root()), wide(0, 0, 400, 400));
    assert!(report.is_clean(), "rotating-frame scene must resolve cleanly: {report:?}");

    let probe = find(&pts, "probe");
    // The probe at child [5,0,0] maps to root [0,−5,0], plus the frame offset → [10,15,30].
    let expected_pos = DVec3::new(offset[0], offset[1] - d, offset[2]);
    assert!(
        dvec3(probe.pos_cam).abs_diff_eq(expected_pos, 1e-9),
        "probe pos_cam {:?} != {expected_pos:?}",
        dvec3(probe.pos_cam)
    );
    // Its body axes are the child's axes in root coordinates.
    let child_to_root = DMat3::from_cols(
        DVec3::new(0.0, -1.0, 0.0),
        DVec3::new(1.0, 0.0, 0.0),
        DVec3::new(0.0, 0.0, 1.0),
    );
    assert!(
        dmat3(probe.att_cam).abs_diff_eq(child_to_root, 1e-9),
        "probe att_cam {:?} != {child_to_root:?}",
        dmat3(probe.att_cam)
    );
    // The tilted object adds another 90°.
    let tilted = find(&pts, "tilted");
    let body_to_root = DMat3::from_cols(
        DVec3::new(-1.0, 0.0, 0.0),
        DVec3::new(0.0, -1.0, 0.0),
        DVec3::new(0.0, 0.0, 1.0),
    );
    assert!(
        dmat3(tilted.att_cam).abs_diff_eq(body_to_root, 1e-9),
        "tilted att_cam {:?} != {body_to_root:?}",
        dmat3(tilted.att_cam)
    );

    // A rotated child whose named parent has no record is still rejected.
    let dangling = FrameDocument {
        header: header(),
        uids: vec![out_root(), out_child(), quantities::FrameUid::of::<PlanetFixed<Mars>>()],
        records: vec![
            rec("root", 0, None, [0.0; 3], ident()),
            // parent index 2 (Mars) is a valid index but has no record.
            rec("moon_fixed", 1, Some(2), offset, z90()),
        ],
    };
    let mut store = SceneStore::new();
    let w = store.writer("wire".into());
    let err = apply_document(&dangling, &w, &mut store).unwrap_err();
    assert!(matches!(err, ApplyError::DanglingParent { .. }));
    assert!(store.snapshot().is_empty(), "nothing committed on dangling parent");
}
