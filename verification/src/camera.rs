//! The eye: where it sits, what it looks at, which way is up, and how far back it stands.

use vstd::prelude::*;
use vstd::arithmetic::power2::pow2;
use crate::binary64::Binary64;
use crate::ident::{FrameClass, FrameRole, FrameUid, ObjectId};
use crate::scene::Vec3;

verus! {

/// Where the camera looks. The frame sets origin and orientation; the target sets the view axis
/// that the eye dollies along.
#[derive(Debug, PartialEq, Eq)]
pub enum CameraTarget {
    /// The origin of a frame.
    FrameOrigin(FrameUid),
    /// A scene object, tracked by id.
    Object(ObjectId),
    /// A fixed direction in the camera frame's own coordinates; need not be unit.
    Bearing(Vec3),
}

impl CameraTarget {
    /// The vector along the view axis, in camera-frame coordinates: a bearing is its own, the
    /// others take the target's position `look_at_cam`. The caller normalizes it.
    pub fn look_vector(&self, look_at_cam: Option<Vec3>) -> (r: Option<Vec3>)
        ensures
            r == match *self {
                CameraTarget::Bearing(dir) => Some(dir),
                _ => look_at_cam,
            },
    {
        match self {
            CameraTarget::Bearing(dir) => Some(*dir),
            CameraTarget::FrameOrigin(_) | CameraTarget::Object(_) => look_at_cam,
        }
    }
}

/// The camera's "which way is up" reference, in the camera frame's coordinates.
#[derive(Clone, Copy, Debug, PartialEq, Eq, Structural)]
pub enum UpHint {
    /// The camera frame's +Z axis.
    FrameUp,
    /// An explicit up direction; need not be unit.
    Direction(Vec3),
}

/// The +Z axis.
pub open spec fn z_axis() -> Vec3 {
    let zero = Binary64 { bits: 0 };
    Vec3 { x: zero, y: zero, z: Binary64 { bits: crate::binary64::ONE } }
}

impl UpHint {
    /// The (un-normalized) up direction in camera-frame coordinates.
    pub fn vector(&self) -> (r: Vec3)
        ensures
            r == match *self {
                UpHint::FrameUp => z_axis(),
                UpHint::Direction(v) => v,
            },
    {
        match self {
            UpHint::FrameUp => Vec3 {
                x: Binary64::from_bits(0),
                y: Binary64::from_bits(0),
                z: Binary64::from_bits(crate::binary64::ONE),
            },
            UpHint::Direction(v) => *v,
        }
    }
}

/// A right-handed orthonormal camera basis, in the camera frame's coordinates: the eye looks
/// along `forward`, `right` is screen-right, `up` is screen-up.
#[derive(Clone, Copy, Debug, PartialEq, Eq, Structural)]
pub struct ViewBasis {
    /// Screen-right (unit).
    pub right: Vec3,
    /// Screen-up (unit).
    pub up: Vec3,
    /// The view axis (unit).
    pub forward: Vec3,
}

/// Squared length, 1e-6, below which the cross product of view axis and up counts as none: the
/// two are parallel to within a twentieth of a degree.
pub const GIMBAL_EPS_SQ: u64 = 0x3EB0_C6F7_A0B5_ED8D;

/// The component, 0.9, from which on a view axis counts as lying along +X.
pub const ALONG_X: u64 = 0x3FEC_CCCC_CCCC_CCCD;

/// The absolute value.
pub open spec fn absolute(b: Binary64) -> Binary64 {
    if b.bits >= crate::binary64::SIGN {
        Binary64 { bits: (b.bits - crate::binary64::SIGN) as u64 }
    } else {
        b
    }
}

/// The up direction that stands in when the hint is parallel to the unit view axis `forward`:
/// +X, or +Y where the axis itself lies along X. `None` while the squared length of their cross
/// product shows that they are not parallel.
pub fn alternate_up(forward: Vec3, cross_length_squared: Binary64) -> (r: Option<Vec3>)
    ensures
        r is Some <==> crate::binary64::less(cross_length_squared, Binary64 { bits: GIMBAL_EPS_SQ }),
        r matches Some(v) ==> {
            let one = Binary64 { bits: crate::binary64::ONE };
            let zero = Binary64 { bits: 0 };
            v == if crate::binary64::less(absolute(forward.x), Binary64 { bits: ALONG_X }) {
                Vec3 { x: one, y: zero, z: zero }
            } else {
                Vec3 { x: zero, y: one, z: zero }
            }
        },
{
    if !cross_length_squared.lt(Binary64::from_bits(GIMBAL_EPS_SQ)) {
        return None;
    }
    let one: Binary64 = Binary64::from_bits(crate::binary64::ONE);
    let zero: Binary64 = Binary64::from_bits(0);
    let magnitude: Binary64 = if forward.x.bits >= crate::binary64::SIGN {
        Binary64::from_bits(forward.x.bits - crate::binary64::SIGN)
    } else {
        forward.x
    };
    if magnitude.lt(Binary64::from_bits(ALONG_X)) {
        Some(Vec3 { x: one, y: zero, z: zero })
    } else {
        Some(Vec3 { x: zero, y: one, z: zero })
    }
}

/// The bound on `log10` of a dolly distance, 307: `10^±307` lies well inside the finite, normal
/// range of double precision.
pub const LOG_ZOOM_BOUND: u64 = 0x4073_3000_0000_0000;

/// The pattern of −307.
pub const LOG_ZOOM_FLOOR: u64 = 0xC073_3000_0000_0000;

/// The pattern of 7: a dolly of 10 000 km.
pub const LOG_ZOOM_DEFAULT: u64 = 0x401C_0000_0000_0000;

/// A log-distance dolly: the eye sits `10^log10` metres back from the view anchor along the view
/// axis. Stored as the logarithm, so that equal nudges are equal screen steps across the orders
/// of magnitude between interplanetary cruise and a touchdown.
#[derive(Clone, Copy, Debug, PartialEq, Eq, Structural)]
pub struct LogZoom {
    log10_distance: Binary64,
}

/// `x` cut to the band of logarithms whose powers are finite and positive; where `x` is not
/// finite, the default.
pub open spec fn banded(x: Binary64) -> Binary64 {
    if !crate::binary64::finite(x) {
        Binary64 { bits: LOG_ZOOM_DEFAULT }
    } else if crate::binary64::less(x, Binary64 { bits: LOG_ZOOM_FLOOR }) {
        Binary64 { bits: LOG_ZOOM_FLOOR }
    } else if crate::binary64::less(Binary64 { bits: LOG_ZOOM_BOUND }, x) {
        Binary64 { bits: LOG_ZOOM_BOUND }
    } else {
        x
    }
}

impl LogZoom {
    /// The stored logarithm.
    pub closed spec fn logarithm(self) -> Binary64 {
        self.log10_distance
    }

    /// A dolly `metres` from the anchor, with `log10_metres` the logarithm of that distance. A
    /// distance that is not finite or not positive gives the smallest dolly in the band, so that
    /// the eye never coincides with the anchor.
    pub fn from_distance(metres: Binary64, log10_metres: Binary64) -> (r: Self)
        ensures
            r.logarithm() == if crate::binary64::finite(metres) && crate::binary64::less(
                Binary64 { bits: 0 },
                metres,
            ) {
                banded(log10_metres)
            } else {
                Binary64 { bits: LOG_ZOOM_FLOOR }
            },
    {
        if metres.is_finite() && Binary64::from_bits(0).lt(metres) {
            LogZoom::from_log10(log10_metres)
        } else {
            LogZoom { log10_distance: Binary64::from_bits(LOG_ZOOM_FLOOR) }
        }
    }

    /// A dolly with the given logarithm, clamped to ±307; the default where it is not finite.
    pub fn from_log10(x: Binary64) -> (r: Self)
        ensures
            r.logarithm() == banded(x),
    {
        let floor: Binary64 = Binary64::from_bits(LOG_ZOOM_FLOOR);
        let bound: Binary64 = Binary64::from_bits(LOG_ZOOM_BOUND);
        if !x.is_finite() {
            LogZoom::default()
        } else if x.lt(floor) {
            LogZoom { log10_distance: floor }
        } else if bound.lt(x) {
            LogZoom { log10_distance: bound }
        } else {
            LogZoom { log10_distance: x }
        }
    }

    /// The logarithm of the distance.
    pub fn log10(&self) -> (r: Binary64)
        ensures
            r == self.logarithm(),
    {
        self.log10_distance
    }

    /// Dolly to `moved`, which the caller computes in double precision: the sum of this dolly's
    /// [`LogZoom::log10`] and a number of decades (positive moves the eye away).
    pub fn nudge(self, moved: Binary64) -> (r: Self)
        ensures
            r.logarithm() == banded(moved),
    {
        LogZoom::from_log10(moved)
    }
}

impl Default for LogZoom {
    /// 10 000 km: a near-orbit vantage that frames a planet-sized body.
    fn default() -> (r: Self)
        ensures
            r.logarithm() == (Binary64 { bits: LOG_ZOOM_DEFAULT }),
    {
        LogZoom { log10_distance: Binary64::from_bits(LOG_ZOOM_DEFAULT) }
    }
}

/// Whatever it is made from, a dolly's logarithm lies within ±307, so that its distance is finite
/// and positive; and a logarithm already there is kept.
pub proof fn law_zoom_stays_in_band(x: Binary64)
    ensures
        crate::binary64::at_most(Binary64 { bits: LOG_ZOOM_FLOOR }, banded(x)),
        crate::binary64::at_most(banded(x), Binary64 { bits: LOG_ZOOM_BOUND }),
        banded(banded(x)) == banded(x),
{
}

/// Default full horizontal field of view: 40°, in radians.
pub const DEFAULT_FOV_RAD: u64 = 0x3FE6_5718_4A79_A0D6;

/// The eye: a scene frame to sit in, a [`CameraTarget`] view axis, an [`UpHint`], a [`LogZoom`]
/// dolly, and a field of view.
#[derive(Debug)]
pub struct Camera {
    /// Identity of the scene frame the eye sits in and is oriented by.
    pub frame: FrameUid,
    /// What the eye looks at.
    pub target: CameraTarget,
    /// Which way is up when building the view basis.
    pub up: UpHint,
    /// Log-distance dolly of the eye along the view axis.
    pub zoom: LogZoom,
    /// Full horizontal field of view, radians: the angle spanned across the viewport width.
    pub fov: Binary64,
}

/// The camera sits in the frame, looks at its origin with frame-up, at the default dolly and
/// field of view.
pub open spec fn sits_in(camera: Camera, frame: FrameUid) -> bool {
    &&& camera.frame == frame
    &&& camera.target == CameraTarget::FrameOrigin(frame)
    &&& camera.up is FrameUp
    &&& camera.zoom.logarithm() == (Binary64 { bits: LOG_ZOOM_DEFAULT })
    &&& camera.fov == (Binary64 { bits: DEFAULT_FOV_RAD })
}

/// An identity of a frame type: namespace 0, with the given class, role and instance name.
pub open spec fn typed_uid(uid: FrameUid, class: FrameClass, role: FrameRole, name: Seq<char>) -> bool {
    &&& uid.namespace == 0
    &&& uid.class == class
    &&& uid.role == role
    &&& uid@.tag == Some(name)
}

impl Camera {
    /// A scene overview anchored in the frame named by `frame`, looking at its origin with
    /// frame-up; tune the view by setting `zoom` and `fov`.
    pub fn overview(frame: FrameUid) -> (r: Self)
        ensures
            sits_in(r, frame),
    {
        Camera::in_frame(frame)
    }

    /// Sit in `frame`, look at its origin, frame-up, default dolly and field of view.
    fn in_frame(frame: FrameUid) -> (r: Self)
        ensures
            sits_in(r, frame),
    {
        Camera {
            target: CameraTarget::FrameOrigin(frame.clone()),
            frame,
            up: UpHint::FrameUp,
            zoom: LogZoom::default(),
            fov: Binary64::from_bits(DEFAULT_FOV_RAD),
        }
    }

    /// Solar-system overview: the inertial root.
    pub fn solar_overview() -> (r: Self)
        ensures
            sits_in(r, r.frame),
            r.frame.namespace == 0,
            r.frame.class is RootInertial,
            r.frame.role is Primary,
            r.frame.tag is None,
    {
        Camera::in_frame(
            FrameUid {
                namespace: 0,
                class: FrameClass::RootInertial,
                role: FrameRole::Primary,
                tag: None,
            },
        )
    }

    /// Sit in the frame that a frame type names for an instance: a concrete planet or vehicle,
    /// since a placeholder that is resolved only at run time names no frame.
    fn in_typed_frame(class: FrameClass, role: FrameRole, name: &str) -> (r: Self)
        ensures
            sits_in(r, r.frame),
            typed_uid(r.frame, class, role, name@),
    {
        Camera::in_frame(FrameUid { namespace: 0, class, role, tag: Some(name.to_owned()) })
    }

    /// Inertial chase: a planet's non-rotating inertial frame.
    pub fn inertial_chase(planet: &str) -> (r: Self)
        ensures
            sits_in(r, r.frame),
            typed_uid(r.frame, FrameClass::PlanetInertial, FrameRole::Primary, planet@),
    {
        Camera::in_typed_frame(FrameClass::PlanetInertial, FrameRole::Primary, planet)
    }

    /// Body-fixed: a planet's rotating frame. Ground track, lunar approach.
    pub fn body_fixed(planet: &str) -> (r: Self)
        ensures
            sits_in(r, r.frame),
            typed_uid(r.frame, FrameClass::PlanetFixed, FrameRole::Primary, planet@),
    {
        Camera::in_typed_frame(FrameClass::PlanetFixed, FrameRole::Primary, planet)
    }

    /// Orbit-relative: a chief vehicle's local-vertical, local-horizontal frame.
    pub fn orbit_relative(vehicle: &str) -> (r: Self)
        ensures
            sits_in(r, r.frame),
            typed_uid(r.frame, FrameClass::OrbitRelative, FrameRole::Lvlh, vehicle@),
    {
        Camera::in_typed_frame(FrameClass::OrbitRelative, FrameRole::Lvlh, vehicle)
    }

    /// Vehicle-local: a moving vehicle's north-east-down frame.
    pub fn vehicle_ned(vehicle: &str) -> (r: Self)
        ensures
            sits_in(r, r.frame),
            typed_uid(r.frame, FrameClass::OrbitRelative, FrameRole::Ned, vehicle@),
    {
        Camera::in_typed_frame(FrameClass::OrbitRelative, FrameRole::Ned, vehicle)
    }

    /// Onboard: a vehicle's body frame. Cockpit, sensor boresight.
    pub fn onboard(vehicle: &str) -> (r: Self)
        ensures
            sits_in(r, r.frame),
            typed_uid(r.frame, FrameClass::Body, FrameRole::CompositeBody, vehicle@),
    {
        Camera::in_typed_frame(FrameClass::Body, FrameRole::CompositeBody, vehicle)
    }

    /// Local horizon: a topocentric frame anchored at a site on a planet. Its identity is keyed
    /// by planet and site, so that a producer and a viewer that name one site converge on it.
    pub fn local_horizon(planet: &str, site: &str) -> (r: Self)
        ensures
            sits_in(r, r.frame),
            r.frame.class is Topocentric,
            r.frame.role is Primary,
            r.frame@ == crate::ident::site_key(planet@, site@),
    {
        Camera::in_frame(FrameUid::topocentric_site(planet, site))
    }
}

/// A logarithm within ±307 is kept, one beyond is cut to the nearer end, and one that is no finite
/// number gives seven: ten thousand kilometres.
pub proof fn law_zoom_is_cut_to_the_band(x: Binary64)
    ensures
        crate::binary64::finite(banded(x)),
        !crate::binary64::finite(x) ==> crate::binary64::scaled(banded(x)) == 7 * pow2(1074),
        crate::binary64::finite(x) && -307 * pow2(1074) <= crate::binary64::scaled(x) <= 307 * pow2(
            1074,
        ) ==> banded(x) == x,
        crate::binary64::finite(x) && crate::binary64::scaled(x) < -307 * pow2(1074)
            ==> crate::binary64::scaled(banded(x)) == -307 * pow2(1074),
        crate::binary64::finite(x) && crate::binary64::scaled(x) > 307 * pow2(1074)
            ==> crate::binary64::scaled(banded(x)) == 307 * pow2(1074),
{
    let (floor, bound, seven) = (
        Binary64 { bits: LOG_ZOOM_FLOOR },
        Binary64 { bits: LOG_ZOOM_BOUND },
        Binary64 { bits: LOG_ZOOM_DEFAULT },
    );
    vstd::arithmetic::power2::lemma2_to64();
    vstd::arithmetic::power2::lemma2_to64_rest();
    crate::binary64::lemma_value(bound, 1031, 0x0013_3000_0000_0000, 0x1000_0000_0000);
    crate::binary64::lemma_value(seven, 1025, 0x001C_0000_0000_0000, 0x0004_0000_0000_0000);
    crate::binary64::law_values_double_with_the_exponent(LOG_ZOOM_BOUND);
    assert((LOG_ZOOM_BOUND + crate::binary64::SIGN) as u64 == LOG_ZOOM_FLOOR);
    if crate::binary64::finite(x) {
        crate::binary64::law_rank_orders_values(x, floor);
        crate::binary64::law_rank_orders_values(bound, x);
    }
}

/// The absolute value is the number or its opposite, whichever is not below zero.
pub proof fn law_absolute_is_not_negative(b: Binary64)
    requires
        crate::binary64::finite(b),
    ensures
        crate::binary64::finite(absolute(b)),
        crate::binary64::scaled(absolute(b)) >= 0,
        crate::binary64::scaled(absolute(b)) == crate::binary64::scaled(b)
            || crate::binary64::scaled(absolute(b)) == -crate::binary64::scaled(b),
{
}

/// The limits of the view: the hint for up gives way below a millionth of squared length, an axis
/// lies along X from nine tenths on, and a lens is 0.6981317 wide unless told otherwise.
pub proof fn law_limits_of_the_view()
    ensures
        ({
            let (eps, along, fov) = (
                crate::binary64::scaled(Binary64 { bits: GIMBAL_EPS_SQ }),
                crate::binary64::scaled(Binary64 { bits: ALONG_X }),
                crate::binary64::scaled(Binary64 { bits: DEFAULT_FOV_RAD }),
            );
            &&& 999_999_999_999_999 * pow2(1074) < 1_000_000_000_000_000_000_000 * eps
                < 1_000_000_000_000_001 * pow2(1074)
            &&& 8_999_999_999_999_999 * pow2(1074) < 10_000_000_000_000_000 * along
                < 9_000_000_000_000_001 * pow2(1074)
            &&& 6_981_316_999_999_999 * pow2(1074) < 10_000_000_000_000_000 * fov
                < 6_981_317_000_000_001 * pow2(1074)
        }),
{
    vstd::arithmetic::power2::lemma2_to64();
    vstd::arithmetic::power2::lemma2_to64_rest();
    vstd::arithmetic::power2::lemma_pow2_pos(1074);
    vstd::arithmetic::power2::lemma_pow2_adds(64, 8);
    crate::binary64::lemma_value(
        Binary64 { bits: GIMBAL_EPS_SQ },
        1003,
        0x0010_C6F7_A0B5_ED8D,
        0x100_0000_0000_0000_0000,
    );
    crate::binary64::lemma_value(
        Binary64 { bits: ALONG_X },
        1022,
        0x001C_CCCC_CCCC_CCCD,
        0x0020_0000_0000_0000,
    );
    crate::binary64::lemma_value(
        Binary64 { bits: DEFAULT_FOV_RAD },
        1022,
        0x0016_5718_4A79_A0D6,
        0x0020_0000_0000_0000,
    );
}

/// Frame-up is one along Z and nothing else; a camera that sits in a frame looks at its origin
/// with frame-up, from a dolly whose logarithm is seven.
pub proof fn law_cameras_look_at_their_frame(camera: Camera, frame: FrameUid)
    requires
        sits_in(camera, frame),
    ensures
        camera.frame@ == frame@,
        camera.target matches CameraTarget::FrameOrigin(uid) && uid@ == frame@,
        camera.up == UpHint::FrameUp,
        crate::binary64::scaled(camera.zoom.logarithm()) == 7 * pow2(1074),
        crate::binary64::scaled(z_axis().x) == 0,
        crate::binary64::scaled(z_axis().y) == 0,
        crate::binary64::scaled(z_axis().z) == pow2(1074),
{
    vstd::arithmetic::power2::lemma2_to64_rest();
    crate::binary64::lemma_one();
    crate::binary64::lemma_value(
        Binary64 { bits: LOG_ZOOM_DEFAULT },
        1025,
        0x001C_0000_0000_0000,
        0x0004_0000_0000_0000,
    );
}

/// The identity that a frame type names for an instance lies in namespace 0 and has its class and
/// role, with the instance's name as its tag.
pub proof fn law_typed_frames_name_their_instance(
    a: FrameUid,
    class: FrameClass,
    role: FrameRole,
    name: Seq<char>,
)
    requires
        typed_uid(a, class, role, name),
    ensures
        a.namespace == 0 && a.class == class && a.role == role,
        a.tag matches Some(t) && t@ == name,
{
}

} // verus!
