//! Scene documents: frames with the objects that live in them.
//!
//! A frame document models frames only; objects — which carry kind, shape and path and name
//! their frame — travel beside it. A [`SceneDocument`] is one instant of both, a [`SceneSeries`]
//! a recording whose object timeline must match the frame timeline epoch by epoch. Both are
//! validated before any number is interpreted, so that an orphan object, a number that is not
//! finite, an impossible ellipsoid or a misaligned timeline is refused and nothing is committed.

use std::sync::Arc;
use astrodyn_frame_doc::{DocError, FrameDocument, FrameSeries};
use vstd::prelude::*;
use crate::binary64::Binary64;
use crate::frame_doc::{body_state, check_parents, document_row_list, document_uid_list, epoch_count, epoch_simtime, placed_frames, segment_count, segment_start, series_row_list, series_uid_list, stage_records, to_vec3, tx_epoch, validate_document, validate_series, ApplyError, CanonicalRotation, FrameRow, TransRecord};
use crate::ident::{FrameKey, FrameUid, ObjectId};
use crate::scene::{BodyShape, ObjectKind, ObjectMeta, Path, PlanetShape, SceneObject, SceneStore, SceneWriter, Transaction, Vec3};

verus! {

/// What an object is, as documents say it.
#[derive(Clone, Copy, Debug, PartialEq, Eq, Structural)]
pub enum ObjectKindWire {
    /// A celestial body.
    Body,
    /// A spacecraft or vehicle.
    Spacecraft,
    /// A fixed surface site.
    Site,
    /// A generic point of interest.
    Marker,
}

/// The kind that a document's kind stands for.
pub open spec fn kind_of(k: ObjectKindWire) -> ObjectKind {
    match k {
        ObjectKindWire::Body => ObjectKind::Body,
        ObjectKindWire::Spacecraft => ObjectKind::Spacecraft,
        ObjectKindWire::Site => ObjectKind::Site,
        ObjectKindWire::Marker => ObjectKind::Marker,
    }
}

/// How a document says a kind.
pub open spec fn wire_of(k: ObjectKind) -> ObjectKindWire {
    match k {
        ObjectKind::Body => ObjectKindWire::Body,
        ObjectKind::Spacecraft => ObjectKindWire::Spacecraft,
        ObjectKind::Site => ObjectKindWire::Site,
        ObjectKind::Marker => ObjectKindWire::Marker,
    }
}

impl From<ObjectKindWire> for ObjectKind {
    fn from(k: ObjectKindWire) -> (r: Self) {
        match k {
            ObjectKindWire::Body => ObjectKind::Body,
            ObjectKindWire::Spacecraft => ObjectKind::Spacecraft,
            ObjectKindWire::Site => ObjectKind::Site,
            ObjectKindWire::Marker => ObjectKind::Marker,
        }
    }
}

impl vstd::std_specs::convert::FromSpecImpl<ObjectKindWire> for ObjectKind {
    open spec fn obeys_from_spec() -> bool {
        true
    }

    open spec fn from_spec(k: ObjectKindWire) -> Self {
        kind_of(k)
    }
}

impl From<ObjectKind> for ObjectKindWire {
    fn from(k: ObjectKind) -> (r: Self) {
        match k {
            ObjectKind::Body => ObjectKindWire::Body,
            ObjectKind::Spacecraft => ObjectKindWire::Spacecraft,
            ObjectKind::Site => ObjectKindWire::Site,
            ObjectKind::Marker => ObjectKindWire::Marker,
        }
    }
}

impl vstd::std_specs::convert::FromSpecImpl<ObjectKind> for ObjectKindWire {
    open spec fn obeys_from_spec() -> bool {
        true
    }

    open spec fn from_spec(k: ObjectKind) -> Self {
        wire_of(k)
    }
}

/// The two ways of saying a kind correspond one to one.
pub proof fn law_kinds_correspond(k: ObjectKind, w: ObjectKindWire)
    ensures
        kind_of(wire_of(k)) == k,
        wire_of(kind_of(w)) == w,
{
}

/// A reference ellipsoid in a document.
#[derive(Debug, PartialEq, Eq)]
pub struct ShapeRecord {
    /// Body name.
    pub name: String,
    /// Gravitational parameter (m³/s²).
    pub mu: Binary64,
    /// Mean equatorial radius (m).
    pub r_eq: Binary64,
    /// Mean polar radius (m).
    pub r_pol: Binary64,
    /// Flattening coefficient.
    pub flat_coeff: Binary64,
}

/// One object in a document. It names its frame by index into the document's table of
/// identities, as a frame names its parent.
#[derive(Debug, PartialEq, Eq)]
pub struct ObjectRecord {
    /// Stable object id.
    pub id: String,
    /// Human label.
    pub label: String,
    /// Index of this object's frame in the document's table.
    pub frame_index: u32,
    /// What the object is.
    pub kind: ObjectKindWire,
    /// Position and velocity in the object's native frame.
    pub trans: TransRecord,
    /// Attitude within its native frame.
    pub rotation: CanonicalRotation,
    /// Optional reference ellipsoid.
    pub shape: Option<ShapeRecord>,
    /// Optional planned polyline, native-frame metres.
    pub path: Option<Vec<[Binary64; 3]>>,
}

/// A scene at one instant: a frame document and the objects keyed off its table.
pub struct SceneDocument {
    /// The frame half.
    pub frames: FrameDocument,
    /// The object half.
    pub objects: Vec<ObjectRecord>,
}

/// One epoch of object state in a [`SceneSeries`].
#[derive(Debug, PartialEq, Eq)]
pub struct ObjectEpochRow {
    /// Elapsed sim seconds; must match the paired frame epoch's.
    pub simtime: Binary64,
    /// Objects at this epoch.
    pub objects: Vec<ObjectRecord>,
}

/// A run of object epochs, parallel to a segment of the frame timeline.
#[derive(Debug, PartialEq, Eq)]
pub struct ObjectSegment {
    /// Start sim seconds; must match the paired frame segment's.
    pub start_simtime: Binary64,
    /// The object rows.
    pub epochs: Vec<ObjectEpochRow>,
}

/// A recorded scene: a frame series and an object timeline that matches it segment by segment
/// and epoch by epoch.
pub struct SceneSeries {
    /// The frame timeline.
    pub frames: FrameSeries,
    /// The object timeline.
    pub objects: Vec<ObjectSegment>,
}

/// A scene-level validation failure.
#[derive(Debug)]
pub enum SceneError {
    /// The frame half failed its own validation.
    Frames(DocError),
    /// An object names a frame that the document does not place: an index out of range, or an
    /// identity without a record.
    OrphanObject {
        /// The offending object's id.
        object: String,
        /// The frame index it named.
        frame_index: u32,
        /// The length of the table.
        len: usize,
    },
    /// A number of the object (translation, rotation, shape or path) is not finite.
    NonFinite(String),
    /// A shape that is no oblate or spherical body.
    BadShape {
        /// The offending object's id.
        object: String,
        /// Which condition was violated.
        why: &'static str,
    },
    /// The object timeline does not match the frame timeline.
    SeriesMisaligned {
        /// Segment involved.
        segment: usize,
        /// Epoch, when the mismatch is within a segment's rows.
        epoch: Option<usize>,
        /// What disagreed.
        why: &'static str,
    },
}

/// What is wrong with an object.
pub enum Fault {
    /// Its frame is not placed.
    Orphan,
    /// One of its numbers is not finite.
    NonFinite,
    /// Its equatorial radius is not positive.
    Equator,
    /// Its polar radius is not positive.
    Pole,
    /// Its polar radius exceeds the equatorial one.
    Prolate,
}

/// All numbers of a polyline are finite.
pub open spec fn points_are_finite(p: Seq<[Binary64; 3]>) -> bool {
    forall|i: int| 0 <= i < p.len() ==> crate::frame_doc::finite3(#[trigger] p[i])
}

/// All numbers of a path are finite.
pub open spec fn path_is_finite(path: Option<Vec<[Binary64; 3]>>) -> bool {
    match path {
        Some(p) => points_are_finite(p@),
        None => true,
    }
}

/// What is wrong with an object in a document with these rows and a table of `len` identities,
/// by the first condition that fails.
pub open spec fn object_fault(o: ObjectRecord, rows: Seq<FrameRow>, len: int) -> Option<Fault> {
    let zero = Binary64 { bits: 0 };
    if o.frame_index >= len || !crate::frame_doc::provided(rows, o.frame_index) {
        Some(Fault::Orphan)
    } else if !crate::frame_doc::finite3(o.trans.position) || !crate::frame_doc::finite3(o.trans.velocity) || !crate::frame_doc::rotation_is_finite(
        o.rotation,
    ) || !path_is_finite(o.path) {
        Some(Fault::NonFinite)
    } else {
        match o.shape {
            None => None,
            Some(s) => if !crate::binary64::finite(s.mu) || !crate::binary64::finite(s.r_eq)
                || !crate::binary64::finite(s.r_pol) || !crate::binary64::finite(s.flat_coeff) {
                Some(Fault::NonFinite)
            } else if crate::binary64::at_most(s.r_eq, zero) {
                Some(Fault::Equator)
            } else if crate::binary64::at_most(s.r_pol, zero) {
                Some(Fault::Pole)
            } else if crate::binary64::less(s.r_eq, s.r_pol) {
                Some(Fault::Prolate)
            } else {
                None
            },
        }
    }
}

/// The error says what is wrong with the object.
pub open spec fn object_error(e: SceneError, o: ObjectRecord, fault: Fault, len: int) -> bool {
    match fault {
        Fault::Orphan => e matches SceneError::OrphanObject { object, frame_index, len: l }
            && object@ == o.id@ && frame_index == o.frame_index && l == len,
        Fault::NonFinite => e matches SceneError::NonFinite(object) && object@ == o.id@,
        Fault::Equator => e matches SceneError::BadShape { object, why } && object@ == o.id@ && why@
            == "r_eq must be > 0"@,
        Fault::Pole => e matches SceneError::BadShape { object, why } && object@ == o.id@ && why@
            == "r_pol must be > 0"@,
        Fault::Prolate => e matches SceneError::BadShape { object, why } && object@ == o.id@ && why@
            == "r_pol must be <= r_eq (oblate or spherical only)"@,
    }
}

/// No object is at fault.
pub open spec fn objects_ok(objects: Seq<ObjectRecord>, rows: Seq<FrameRow>, len: int) -> bool {
    forall|i: int| 0 <= i < objects.len() ==> object_fault(#[trigger] objects[i], rows, len) is None
}

/// The error says what is wrong with the first object at fault.
pub open spec fn first_object_error(
    e: SceneError,
    objects: Seq<ObjectRecord>,
    rows: Seq<FrameRow>,
    len: int,
) -> bool {
    exists|i: int|
        0 <= i < objects.len() && object_fault(#[trigger] objects[i], rows, len) is Some
            && object_error(e, objects[i], object_fault(objects[i], rows, len)->0, len)
            && objects_ok(objects.take(i), rows, len)
}

/// Whether all three numbers are finite.
fn all_finite3(a: &[Binary64; 3]) -> (r: bool)
    ensures
        r == crate::frame_doc::finite3(*a),
{
    a[0].is_finite() && a[1].is_finite() && a[2].is_finite()
}

/// Whether all numbers of a rotation are finite.
fn rotation_finite(r: &CanonicalRotation) -> (b: bool)
    ensures
        b == crate::frame_doc::rotation_is_finite(*r),
{
    match r {
        CanonicalRotation::Quat(q) => q[0].is_finite() && q[1].is_finite() && q[2].is_finite()
            && q[3].is_finite(),
        CanonicalRotation::Matrix(m) => all_finite3(&m[0]) && all_finite3(&m[1]) && all_finite3(
            &m[2],
        ),
    }
}

/// Whether all numbers of a polyline are finite.
fn all_finite(p: &Vec<[Binary64; 3]>) -> (r: bool)
    ensures
        r == points_are_finite(p@),
{
    let mut i: usize = 0;
    while i < p.len()
        invariant
            i <= p@.len(),
            forall|j: int| 0 <= j < i ==> crate::frame_doc::finite3(#[trigger] p@[j]),
        decreases p@.len() - i,
    {
        if !all_finite3(&p[i]) {
            assert(!crate::frame_doc::finite3(p@[i as int]));
            return false;
        }
        i = i + 1;
    }
    true
}

/// Whether all numbers of a path are finite.
fn path_finite(path: &Option<Vec<[Binary64; 3]>>) -> (r: bool)
    ensures
        r == path_is_finite(*path),
{
    match path {
        Some(p) => all_finite(p),
        None => true,
    }
}

/// Validate one object: it must name a placed frame, every number must be finite, and a shape
/// must be that of an oblate or spherical body.
fn validate_object(
    uids_len: usize,
    placed: &Vec<bool>,
    o: &ObjectRecord,
    Ghost(rows): Ghost<Seq<FrameRow>>,
) -> (r: Result<(), SceneError>)
    requires
        placed@.len() == uids_len,
        forall|i: int|
            0 <= i < uids_len && i <= u32::MAX ==> (#[trigger] placed@[i])
                == crate::frame_doc::provided(rows, i as u32),
    ensures
        r is Ok <==> object_fault(*o, rows, uids_len as int) is None,
        r is Err ==> object_error(
            r->Err_0,
            *o,
            object_fault(*o, rows, uids_len as int)->0,
            uids_len as int,
        ),
{
    let zero: Binary64 = Binary64::from_bits(0);
    let index: usize = o.frame_index as usize;
    if index >= uids_len || !placed[index] {
        assert(index < uids_len ==> placed@[index as int] == crate::frame_doc::provided(
            rows,
            o.frame_index,
        ));
        return Err(
            SceneError::OrphanObject {
                object: o.id.clone(),
                frame_index: o.frame_index,
                len: uids_len,
            },
        );
    }
    assert(placed@[index as int] == crate::frame_doc::provided(rows, o.frame_index));
    if !all_finite3(&o.trans.position) || !all_finite3(&o.trans.velocity) || !rotation_finite(
        &o.rotation,
    ) || !path_finite(&o.path) {
        return Err(SceneError::NonFinite(o.id.clone()));
    }
    match &o.shape {
        Some(s) => {
            if !(s.mu.is_finite() && s.r_eq.is_finite() && s.r_pol.is_finite()
                && s.flat_coeff.is_finite()) {
                return Err(SceneError::NonFinite(o.id.clone()));
            }
            if s.r_eq.le(zero) {
                return Err(
                    SceneError::BadShape { object: o.id.clone(), why: "r_eq must be > 0" },
                );
            }
            if s.r_pol.le(zero) {
                return Err(
                    SceneError::BadShape { object: o.id.clone(), why: "r_pol must be > 0" },
                );
            }
            if s.r_eq.lt(s.r_pol) {
                return Err(
                    SceneError::BadShape {
                        object: o.id.clone(),
                        why: "r_pol must be <= r_eq (oblate or spherical only)",
                    },
                );
            }
        },
        None => {},
    }
    Ok(())
}

/// Validate the objects of a document, or of one epoch, against its rows.
pub fn validate_objects(uids_len: usize, rows: &Vec<FrameRow>, objects: &Vec<ObjectRecord>) -> (r: Result<
    (),
    SceneError,
>)
    ensures
        r is Ok <==> objects_ok(objects@, rows@, uids_len as int),
        r is Err ==> first_object_error(r->Err_0, objects@, rows@, uids_len as int),
{
    let placed: Vec<bool> = placed_frames(uids_len, rows);
    let mut n: usize = 0;
    while n < objects.len()
        invariant
            n <= objects@.len(),
            placed@.len() == uids_len,
            forall|i: int|
                0 <= i < uids_len && i <= u32::MAX ==> (#[trigger] placed@[i])
                    == crate::frame_doc::provided(rows@, i as u32),
            forall|i: int|
                0 <= i < n ==> object_fault(
                    #[trigger] objects@[i],
                    rows@,
                    uids_len as int,
                ) is None,
        decreases objects@.len() - n,
    {
        match validate_object(uids_len, &placed, &objects[n], Ghost(rows@)) {
            Ok(()) => {},
            Err(e) => {
                proof {
                    let o = objects@[n as int];
                    assert(object_fault(o, rows@, uids_len as int) is Some);
                    assert(objects_ok(objects@.take(n as int), rows@, uids_len as int));
                }
                return Err(e);
            },
        }
        n = n + 1;
    }
    Ok(())
}

/// The document is a valid scene: its frame half is accepted and no object is at fault.
pub open spec fn document_ok(doc: SceneDocument) -> bool {
    &&& crate::frame_doc::document_accepted(doc.frames)
    &&& objects_ok(
        doc.objects@,
        crate::frame_doc::document_rows(doc.frames),
        crate::frame_doc::document_uids(doc.frames).len() as int,
    )
}

/// The error says why the document is no valid scene.
pub open spec fn document_error(e: SceneError, doc: SceneDocument) -> bool {
    match crate::frame_doc::document_verdict(doc.frames) {
        Err(why) => e == SceneError::Frames(why),
        Ok(()) => first_object_error(
            e,
            doc.objects@,
            crate::frame_doc::document_rows(doc.frames),
            crate::frame_doc::document_uids(doc.frames).len() as int,
        ),
    }
}

impl SceneDocument {
    /// Validate the snapshot: the frame half first, then for every object that its frame is
    /// placed, its numbers finite and its shape possible.
    pub fn validate(&self) -> (r: Result<(), SceneError>)
        ensures
            r is Ok <==> document_ok(*self),
            r is Err ==> document_error(r->Err_0, *self),
            r is Ok ==> crate::frame_doc::unique(crate::frame_doc::document_uids(self.frames))
                && crate::frame_doc::rows_fit(
                crate::frame_doc::document_rows(self.frames),
                crate::frame_doc::document_uids(self.frames).len() as int,
            ) && crate::frame_doc::rows_finite(crate::frame_doc::document_rows(self.frames)),
    {
        match validate_document(&self.frames) {
            Ok(()) => {},
            Err(e) => {
                return Err(SceneError::Frames(e));
            },
        }
        let uids: Vec<FrameUid> = document_uid_list(&self.frames);
        let rows: Vec<FrameRow> = document_row_list(&self.frames);
        assert(crate::frames::keys(uids@).len() == uids@.len());
        validate_objects(uids.len(), &rows, &self.objects)
    }
}

/// An epoch of objects matches an epoch of frames: they are at the same time, bit for bit, and no
/// object is at fault.
pub open spec fn epoch_ok(f: crate::frame_doc::EpochModel, o: ObjectEpochRow, len: int) -> bool {
    o.simtime == f.simtime && objects_ok(o.objects@, f.rows, len)
}

/// The epochs of a segment match.
pub open spec fn epochs_ok(
    f: Seq<crate::frame_doc::EpochModel>,
    o: Seq<ObjectEpochRow>,
    len: int,
) -> bool {
    forall|e: int| 0 <= e < f.len() && e < o.len() ==> epoch_ok(f[e], #[trigger] o[e], len)
}

/// A segment of objects matches a segment of frames: same start, bit for bit, as many epochs, and
/// matching epochs.
pub open spec fn segment_ok(f: crate::frame_doc::SegmentModel, o: ObjectSegment, len: int) -> bool {
    o.start_simtime == f.start && o.epochs@.len() == f.epochs.len() && epochs_ok(
        f.epochs,
        o.epochs@,
        len,
    )
}

/// The segments match.
pub open spec fn segments_ok(
    f: Seq<crate::frame_doc::SegmentModel>,
    o: Seq<ObjectSegment>,
    len: int,
) -> bool {
    forall|s: int| 0 <= s < f.len() && s < o.len() ==> segment_ok(f[s], #[trigger] o[s], len)
}

/// The series is a valid recording: its frame half is accepted, and the object timeline has as
/// many segments and matches in each.
pub open spec fn series_ok(series: SceneSeries) -> bool {
    let segments = crate::frame_doc::series_segments(series.frames);
    let len = crate::frame_doc::series_uids(series.frames).len() as int;
    &&& crate::frame_doc::series_accepted(series.frames)
    &&& series.objects@.len() == segments.len()
    &&& segments_ok(segments, series.objects@, len)
}

/// The error says what is wrong with a segment: its start, its number of epochs, or its first
/// epoch that does not match.
pub open spec fn segment_error(
    err: SceneError,
    s: int,
    f: crate::frame_doc::SegmentModel,
    o: ObjectSegment,
    len: int,
) -> bool {
    if o.start_simtime != f.start {
        err matches SceneError::SeriesMisaligned { segment, epoch, why } && segment == s && epoch
            is None && why@ == "segment start_simtime differs"@
    } else if o.epochs@.len() != f.epochs.len() {
        err matches SceneError::SeriesMisaligned { segment, epoch, why } && segment == s && epoch
            is None && why@ == "epoch count differs"@
    } else {
        exists|e: int|
            0 <= e < o.epochs@.len() && !epoch_ok(f.epochs[e], #[trigger] o.epochs@[e], len)
                && epochs_ok(f.epochs.take(e), o.epochs@.take(e), len) && epoch_error(
                err,
                s,
                e,
                f.epochs[e],
                o.epochs@[e],
                len,
            )
    }
}

/// The error says what is wrong with an epoch: its time, or its first object at fault.
pub open spec fn epoch_error(
    err: SceneError,
    s: int,
    e: int,
    f: crate::frame_doc::EpochModel,
    o: ObjectEpochRow,
    len: int,
) -> bool {
    if o.simtime != f.simtime {
        err matches SceneError::SeriesMisaligned { segment, epoch, why } && segment == s && epoch
            == Some(e as usize) && why@ == "epoch simtime differs"@
    } else {
        first_object_error(err, o.objects@, f.rows, len)
    }
}

/// The error says why the series is no valid recording: by the frame half, by the number of
/// segments, or by the first segment that does not match.
pub open spec fn series_error(err: SceneError, series: SceneSeries) -> bool {
    let segments = crate::frame_doc::series_segments(series.frames);
    let len = crate::frame_doc::series_uids(series.frames).len() as int;
    if let Err(why) = crate::frame_doc::series_verdict(series.frames) {
        err == SceneError::Frames(why)
    } else if series.objects@.len() != segments.len() {
        err matches SceneError::SeriesMisaligned { segment, epoch, why } && segment == 0 && epoch
            is None && why@ == "segment count differs between the frame and object timelines"@
    } else {
        exists|s: int|
            0 <= s < segments.len() && !segment_ok(segments[s], #[trigger] series.objects@[s], len)
                && segments_ok(segments.take(s), series.objects@.take(s), len) && segment_error(
                err,
                s,
                segments[s],
                series.objects@[s],
                len,
            )
    }
}

/// Check that segment `s` of an object timeline matches that of a frame series.
fn validate_segment(frames: &FrameSeries, s: usize, o: &ObjectSegment, uids_len: usize) -> (r: Result<
    (),
    SceneError,
>)
    requires
        s < crate::frame_doc::series_segments(*frames).len(),
    ensures
        r is Ok <==> segment_ok(
            crate::frame_doc::series_segments(*frames)[s as int],
            *o,
            uids_len as int,
        ),
        r is Err ==> segment_error(
            r->Err_0,
            s as int,
            crate::frame_doc::series_segments(*frames)[s as int],
            *o,
            uids_len as int,
        ),
{
    let ghost f = crate::frame_doc::series_segments(*frames)[s as int];
    if o.start_simtime != segment_start(frames, s) {
        return Err(
            SceneError::SeriesMisaligned {
                segment: s,
                epoch: None,
                why: "segment start_simtime differs",
            },
        );
    }
    if o.epochs.len() != epoch_count(frames, s) {
        return Err(
            SceneError::SeriesMisaligned { segment: s, epoch: None, why: "epoch count differs" },
        );
    }
    let mut e: usize = 0;
    while e < o.epochs.len()
        invariant
            s < crate::frame_doc::series_segments(*frames).len(),
            f == crate::frame_doc::series_segments(*frames)[s as int],
            o.start_simtime == f.start,
            o.epochs@.len() == f.epochs.len(),
            e <= o.epochs@.len(),
            forall|i: int|
                0 <= i < e ==> epoch_ok(f.epochs[i], #[trigger] o.epochs@[i], uids_len as int),
        decreases o.epochs@.len() - e,
    {
        let row: &ObjectEpochRow = &o.epochs[e];
        assert(*row == o.epochs@[e as int]);
        assert(epochs_ok(
            f.epochs.take(e as int),
            o.epochs@.take(e as int),
            uids_len as int,
        ));
        if row.simtime != epoch_simtime(frames, s, e) {
            assert(!epoch_ok(f.epochs[e as int], o.epochs@[e as int], uids_len as int));
            return Err(
                SceneError::SeriesMisaligned {
                    segment: s,
                    epoch: Some(e),
                    why: "epoch simtime differs",
                },
            );
        }
        let rows: Vec<FrameRow> = series_row_list(frames, s, e);
        match validate_objects(uids_len, &rows, &row.objects) {
            Ok(()) => {},
            Err(err) => {
                assert(!epoch_ok(f.epochs[e as int], o.epochs@[e as int], uids_len as int));
                return Err(err);
            },
        }
        e = e + 1;
    }
    Ok(())
}

impl SceneSeries {
    /// Validate the recording: the frame half, the match of the object timeline with the frame
    /// timeline (as many segments and epochs, times equal bit for bit), and every object row
    /// against its epoch's frames.
    pub fn validate(&self) -> (r: Result<(), SceneError>)
        ensures
            r is Ok <==> series_ok(*self),
            r is Err ==> series_error(r->Err_0, *self),
            r is Ok ==> crate::frame_doc::unique(crate::frame_doc::series_uids(self.frames))
                && crate::frame_doc::segments_fit(
                crate::frame_doc::series_segments(self.frames),
                crate::frame_doc::series_uids(self.frames).len() as int,
            ),
    {
        match validate_series(&self.frames) {
            Ok(()) => {},
            Err(e) => {
                return Err(SceneError::Frames(e));
            },
        }
        let uids: Vec<FrameUid> = series_uid_list(&self.frames);
        assert(crate::frames::keys(uids@).len() == uids@.len());
        if self.objects.len() != segment_count(&self.frames) {
            return Err(
                SceneError::SeriesMisaligned {
                    segment: 0,
                    epoch: None,
                    why: "segment count differs between the frame and object timelines",
                },
            );
        }
        let ghost segments = crate::frame_doc::series_segments(self.frames);
        let mut s: usize = 0;
        while s < self.objects.len()
            invariant
                segments == crate::frame_doc::series_segments(self.frames),
                crate::frame_doc::series_accepted(self.frames),
                crate::frame_doc::unique(crate::frame_doc::series_uids(self.frames)),
                crate::frame_doc::segments_fit(
                    segments,
                    crate::frame_doc::series_uids(self.frames).len() as int,
                ),
                uids@.len() == crate::frame_doc::series_uids(self.frames).len(),
                self.objects@.len() == segments.len(),
                s <= segments.len(),
                forall|i: int|
                    0 <= i < s ==> segment_ok(
                        segments[i],
                        #[trigger] self.objects@[i],
                        uids@.len() as int,
                    ),
            decreases segments.len() - s,
        {
            match validate_segment(&self.frames, s, &self.objects[s], uids.len()) {
                Ok(()) => {},
                Err(e) => {
                    proof {
                        let len = uids@.len() as int;
                        assert(segments_ok(
                            segments.take(s as int),
                            self.objects@.take(s as int),
                            len,
                        ));
                        assert(!segment_ok(segments[s as int], self.objects@[s as int], len));
                    }
                    return Err(e);
                },
            }
            s = s + 1;
        }
        Ok(())
    }
}

/// In a valid scene every shape is that of an oblate or spherical body.
pub proof fn law_valid_shapes_are_oblate(o: ObjectRecord, rows: Seq<FrameRow>, len: int)
    requires
        object_fault(o, rows, len) is None,
    ensures
        o.shape matches Some(s) ==> crate::scene::oblate(s.r_eq, s.r_pol),
{
}

/// In a valid recording the frame timeline and the object timeline have the same epochs, at the
/// same times: one can be applied with the other.
pub proof fn law_timelines_are_congruent(series: SceneSeries, s: int, e: int)
    requires
        series_ok(series),
    ensures
        crate::frame_doc::has_epoch(crate::frame_doc::series_segments(series.frames), s, e) <==> 0
            <= s < series.objects@.len() && 0 <= e < series.objects@[s].epochs@.len(),
        crate::frame_doc::has_epoch(crate::frame_doc::series_segments(series.frames), s, e) ==> {
            let frame = crate::frame_doc::series_segments(series.frames)[s].epochs[e];
            let object = series.objects@[s].epochs@[e];
            object.simtime == frame.simtime && objects_ok(
                object.objects@,
                frame.rows,
                crate::frame_doc::series_uids(series.frames).len() as int,
            )
        },
{
    let segments = crate::frame_doc::series_segments(series.frames);
    let len = crate::frame_doc::series_uids(series.frames).len() as int;
    if 0 <= s < segments.len() {
        assert(segment_ok(segments[s], series.objects@[s], len));
        if 0 <= e < segments[s].epochs.len() {
            assert(epoch_ok(segments[s].epochs[e], series.objects@[s].epochs@[e], len));
        }
    }
}

/// The scene's shape is the record's, or there is none on either side.
pub open spec fn same_shape(shape: Option<BodyShape>, record: Option<ShapeRecord>) -> bool {
    match (shape, record) {
        (Some(b), Some(s)) => {
            &&& b.ellipsoid.name@ == s.name@
            &&& b.ellipsoid.mu == s.mu
            &&& b.ellipsoid.r_eq == s.r_eq
            &&& b.ellipsoid.r_pol == s.r_pol
            &&& b.ellipsoid.flat_coeff == s.flat_coeff
        },
        (None, None) => true,
        _ => false,
    }
}

/// The scene's path has the record's points, or there is none on either side.
pub open spec fn same_path(path: Option<Path>, record: Option<Vec<[Binary64; 3]>>) -> bool {
    match (path, record) {
        (Some(p), Some(v)) => same_points(p.points@, v@),
        (None, None) => true,
        _ => false,
    }
}

/// The points are those of the record.
pub open spec fn same_points(points: Seq<Vec3>, record: Seq<[Binary64; 3]>) -> bool {
    &&& points.len() == record.len()
    &&& forall|i: int|
        0 <= i < record.len() ==> #[trigger] points[i] == crate::frame_doc::vec3(record[i])
}

/// The scene object of a record under a table of identities.
pub open spec fn record_object(obj: SceneObject, o: ObjectRecord, uids: Seq<FrameKey>) -> bool {
    &&& obj.id@ == o.id@
    &&& obj.label@ == o.label@
    &&& obj.frame@ == uids[o.frame_index as int]
    &&& obj.kind == kind_of(o.kind)
    &&& obj.state == crate::frame_doc::state_of(o.trans, o.rotation)
    &&& same_shape(obj.shape, o.shape)
    &&& same_path(obj.path, o.path)
}

/// No later record has the id of record `i`.
pub open spec fn last_of_id(records: Seq<ObjectRecord>, i: int) -> bool {
    forall|j: int| i < j < records.len() ==> (#[trigger] records[j]).id@ != records[i].id@
}

/// The objects are exactly those of the records; of two records with one id, the later counts.
pub open spec fn objects_of(
    objects: Map<Seq<char>, Arc<SceneObject>>,
    uids: Seq<FrameKey>,
    records: Seq<ObjectRecord>,
) -> bool {
    &&& forall|i: int|
        0 <= i < records.len() && last_of_id(records, i) ==> {
            let id = (#[trigger] records[i]).id@;
            objects.contains_key(id) && record_object(*objects[id], records[i], uids)
        }
    &&& forall|id: Seq<char>| #[trigger]
        objects.contains_key(id) <==> exists|i: int|
            0 <= i < records.len() && (#[trigger] records[i]).id@ == id
}

/// A scene path from a record's points.
fn to_path(points: &Vec<[Binary64; 3]>) -> (r: Path)
    ensures
        same_points(r.points@, points@),
{
    let mut out: Vec<Vec3> = Vec::new();
    let mut i: usize = 0;
    while i < points.len()
        invariant
            i <= points@.len(),
            out@.len() == i,
            forall|j: int|
                0 <= j < i ==> #[trigger] out@[j] == crate::frame_doc::vec3(points@[j]),
        decreases points@.len() - i,
    {
        out.push(to_vec3(points[i]));
        i = i + 1;
    }
    Path { points: out }
}

/// A scene shape from a record.
fn body_shape(s: &ShapeRecord) -> (r: BodyShape)
    ensures
        same_shape(Some(r), Some(*s)),
{
    BodyShape::ellipsoid(
        PlanetShape {
            name: s.name.clone(),
            mu: s.mu,
            r_eq: s.r_eq,
            r_pol: s.r_pol,
            flat_coeff: s.flat_coeff,
        },
    )
}

/// The record's shape, where there is one, is that of an oblate or spherical body.
spec fn record_shape_possible(o: ObjectRecord) -> bool {
    o.shape matches Some(s) ==> crate::scene::oblate(s.r_eq, s.r_pol)
}

/// Stage every object record onto an open transaction, resolving frame indices into identities.
fn stage_objects(tx: &mut Transaction, uids: &Vec<FrameUid>, records: &Vec<ObjectRecord>)
    requires
        old(tx).wf(),
        old(tx).staged().objects == Map::<Seq<char>, Arc<SceneObject>>::empty(),
        forall|i: int|
            0 <= i < records@.len() ==> (#[trigger] records@[i]).frame_index < uids@.len(),
        forall|i: int|
            0 <= i < records@.len() ==> record_shape_possible(#[trigger] records@[i]),
    ensures
        final(tx).wf(),
        final(tx).target() == old(tx).target(),
        final(tx).staged().epoch == old(tx).staged().epoch,
        final(tx).staged().frames == old(tx).staged().frames,
        objects_of(final(tx).staged().objects, crate::frames::keys(uids@), records@),
{
    let ghost keys = crate::frames::keys(uids@);
    let mut n: usize = 0;
    assert(records@.take(0) =~= Seq::empty());
    while n < records.len()
        invariant
            n <= records@.len(),
            tx.wf(),
            keys == crate::frames::keys(uids@),
            forall|i: int|
                0 <= i < records@.len() ==> (#[trigger] records@[i]).frame_index < uids@.len(),
            forall|i: int|
                0 <= i < records@.len() ==> record_shape_possible(#[trigger] records@[i]),
            tx.target() == old(tx).target(),
            tx.staged().epoch == old(tx).staged().epoch,
            tx.staged().frames == old(tx).staged().frames,
            objects_of(tx.staged().objects, keys, records@.take(n as int)),
        decreases records@.len() - n,
    {
        let o: &ObjectRecord = &records[n];
        let ghost before = tx.staged().objects;
        let ghost t = records@.take(n as int);
        assert(*o == records@[n as int]);
        let frame: FrameUid = uids[o.frame_index as usize].clone();
        let meta: ObjectMeta = ObjectMeta {
            label: o.label.clone(),
            kind: ObjectKind::from(o.kind),
            shape: match &o.shape {
                Some(s) => Some(body_shape(s)),
                None => None,
            },
            path: match &o.path {
                Some(p) => Some(to_path(p)),
                None => None,
            },
        };
        let id: ObjectId = ObjectId::new(o.id.as_str());
        tx.object(id, frame, body_state(&o.trans, &o.rotation), meta);
        proof {
            let after = tx.staged().objects;
            let now = records@.take(n + 1);
            assert(now =~= t.push(*o));
            assert(record_object(*after[o.id@], *o, keys));
            assert forall|i: int| 0 <= i < now.len() && last_of_id(now, i) implies ({
                let k = (#[trigger] now[i]).id@;
                after.contains_key(k) && record_object(*after[k], now[i], keys)
            }) by {
                if i < n {
                    assert(now[n as int].id@ != now[i].id@);
                    assert(last_of_id(t, i)) by {
                        assert forall|j: int| i < j < t.len() implies (#[trigger] t[j]).id@
                            != t[i].id@ by {
                            assert(now[j].id@ != now[i].id@);
                        }
                    }
                    assert(t[i] == now[i]);
                }
            }
            assert forall|k: Seq<char>| #[trigger] after.contains_key(k) <==> exists|i: int|
                0 <= i < now.len() && (#[trigger] now[i]).id@ == k by {
                if before.contains_key(k) {
                    let i = choose|i: int| 0 <= i < t.len() && (#[trigger] t[i]).id@ == k;
                    assert(now[i].id@ == k);
                }
                if k == o.id@ {
                    assert(now[n as int].id@ == k);
                }
                if exists|i: int| 0 <= i < now.len() && (#[trigger] now[i]).id@ == k {
                    let i = choose|i: int| 0 <= i < now.len() && (#[trigger] now[i]).id@ == k;
                    if i < n {
                        assert(t[i].id@ == k);
                    }
                }
            }
        }
        n = n + 1;
    }
    assert(records@.take(n as int) =~= records@);
}

/// Layer content with exactly the frames of the rows and the objects of the records, stamped with
/// the rows' time.
pub open spec fn layer_of_scene(
    layer: crate::scene::LayerModel,
    uids: Seq<FrameKey>,
    rows: Seq<FrameRow>,
    records: Seq<ObjectRecord>,
) -> bool {
    &&& layer.epoch matches Some(e) && e.secs() == crate::frame_doc::rows_epoch(rows)
        && crate::frame_doc::frames_of(layer.frames, uids, rows, e)
    &&& objects_of(layer.objects, uids, records)
}

/// Of the records with one id, one is the last.
proof fn lemma_last_record(records: Seq<ObjectRecord>, i: int) -> (k: int)
    requires
        0 <= i < records.len(),
    ensures
        i <= k < records.len(),
        records[k].id@ == records[i].id@,
        last_of_id(records, k),
    decreases records.len() - i,
{
    if last_of_id(records, i) {
        i
    } else {
        let j = choose|j: int| i < j < records.len() && (#[trigger] records[j]).id@ == records[i].id@;
        lemma_last_record(records, j)
    }
}

/// A valid record gives a finite object.
proof fn lemma_object_is_finite(
    obj: SceneObject,
    o: ObjectRecord,
    uids: Seq<FrameKey>,
    rows: Seq<FrameRow>,
    len: int,
)
    requires
        object_fault(o, rows, len) is None,
        record_object(obj, o, uids),
    ensures
        crate::frame_doc::state_is_finite(obj.state),
{
    assert(crate::frame_doc::rotation_is_finite(o.rotation));
}

/// Valid rows and records give a finite layer.
pub(crate) proof fn lemma_scene_is_finite(
    layer: crate::scene::LayerModel,
    uids: Seq<FrameKey>,
    rows: Seq<FrameRow>,
    records: Seq<ObjectRecord>,
)
    requires
        crate::frame_doc::rows_finite(rows),
        objects_ok(records, rows, uids.len() as int),
        layer_of_scene(layer, uids, rows, records),
    ensures
        crate::frame_doc::layer_is_finite(layer),
{
    crate::frame_doc::lemma_frames_are_finite(layer.frames, uids, rows, layer.epoch->0);
    assert forall|id: Seq<char>| #[trigger] layer.objects.contains_key(id) implies
        crate::frame_doc::state_is_finite(layer.objects[id].state) by {
        let i = choose|i: int| 0 <= i < records.len() && (#[trigger] records[i]).id@ == id;
        let k = lemma_last_record(records, i);
        lemma_object_is_finite(*layer.objects[id], records[k], uids, rows, uids.len() as int);
    }
}

/// What comes of applying a scene that passed validation: where every parent is provided, the
/// writer's layer holds exactly its frames and objects; otherwise the first missing parent is
/// named and the scene is as it was.
pub open spec fn scene_applied(
    r: Result<(), ApplyError>,
    before: SceneStore,
    after: SceneStore,
    target: Seq<char>,
    uids: Seq<FrameKey>,
    rows: Seq<FrameRow>,
    records: Seq<ObjectRecord>,
) -> bool {
    match r {
        Ok(()) => {
            &&& crate::frame_doc::parents_provided(rows)
            &&& after@.contains_key(target) && after@ == before@.insert(target, after@[target])
            &&& layer_of_scene(after@[target], uids, rows, records)
        },
        Err(e) => {
            &&& !crate::frame_doc::parents_provided(rows)
            &&& crate::frame_doc::dangling_error(e, uids, rows)
            &&& after == before
        },
    }
}

/// Apply frames and objects that passed validation as one transaction.
pub fn apply_scene(
    uids: &Vec<FrameUid>,
    rows: &Vec<FrameRow>,
    records: &Vec<ObjectRecord>,
    w: &SceneWriter,
    store: &mut SceneStore,
) -> (r: Result<(), ApplyError>)
    requires
        old(store).wf(),
        crate::frame_doc::unique(crate::frames::keys(uids@)),
        crate::frame_doc::rows_fit(rows@, uids@.len() as int),
        objects_ok(records@, rows@, uids@.len() as int),
    ensures
        final(store).wf(),
        scene_applied(
            r,
            *old(store),
            *final(store),
            w.target()@,
            crate::frames::keys(uids@),
            rows@,
            records@,
        ),
{
    match check_parents(uids, rows) {
        Ok(()) => {},
        Err(e) => {
            return Err(e);
        },
    }
    assert forall|i: int| 0 <= i < records@.len() implies (#[trigger] records@[i]).frame_index
        < uids@.len() by {
        assert(object_fault(records@[i], rows@, uids@.len() as int) is None);
    }
    assert forall|i: int| 0 <= i < records@.len() implies record_shape_possible(
        #[trigger] records@[i],
    ) by {
        law_valid_shapes_are_oblate(records@[i], rows@, uids@.len() as int);
    }
    let mut tx: Transaction = w.begin(tx_epoch(rows));
    stage_records(&mut tx, uids, rows);
    stage_objects(&mut tx, uids, records);
    tx.commit(store);
    Ok(())
}

/// Apply a scene document onto the writer's layer: frames and objects in one transaction. The
/// document is validated before the transaction opens, so that a rejected one leaves the scene
/// as it was.
pub fn apply_scene_document(doc: &SceneDocument, w: &SceneWriter, store: &mut SceneStore) -> (r: Result<
    (),
    ApplyError,
>)
    requires
        old(store).wf(),
    ensures
        final(store).wf(),
        !document_ok(*doc) ==> r is Err && r->Err_0 is Scene && document_error(
            r->Err_0->Scene_0,
            *doc,
        ) && *final(store) == *old(store),
        document_ok(*doc) ==> scene_applied(
            r,
            *old(store),
            *final(store),
            w.target()@,
            crate::frame_doc::document_uids(doc.frames),
            crate::frame_doc::document_rows(doc.frames),
            doc.objects@,
        ),
        r is Ok ==> crate::frame_doc::layer_is_finite(final(store)@[w.target()@]),
{
    match doc.validate() {
        Ok(()) => {},
        Err(e) => {
            return Err(ApplyError::Scene(e));
        },
    }
    let uids: Vec<FrameUid> = document_uid_list(&doc.frames);
    let rows: Vec<FrameRow> = document_row_list(&doc.frames);
    assert(crate::frames::keys(uids@).len() == uids@.len());
    let r: Result<(), ApplyError> = apply_scene(&uids, &rows, &doc.objects, w, store);
    proof {
        if r is Ok {
            lemma_scene_is_finite(
                store@[w.target()@],
                crate::frame_doc::document_uids(doc.frames),
                rows@,
                doc.objects@,
            );
        }
    }
    r
}

/// Apply one epoch of a recording that passed validation.
pub(crate) fn apply_row(
    series: &SceneSeries,
    segment: usize,
    epoch: usize,
    w: &SceneWriter,
    store: &mut SceneStore,
) -> (r: Result<(), ApplyError>)
    requires
        old(store).wf(),
        series_ok(*series),
        crate::frame_doc::unique(crate::frame_doc::series_uids(series.frames)),
        crate::frame_doc::segments_fit(
            crate::frame_doc::series_segments(series.frames),
            crate::frame_doc::series_uids(series.frames).len() as int,
        ),
        crate::frame_doc::has_epoch(
            crate::frame_doc::series_segments(series.frames),
            segment as int,
            epoch as int,
        ),
    ensures
        final(store).wf(),
        epoch_applied(r, *old(store), *final(store), w.target()@, *series, segment, epoch),
        r is Ok ==> crate::frame_doc::layer_is_finite(final(store)@[w.target()@]),
{
    proof {
        let f = crate::frame_doc::series_segments(series.frames)[segment as int];
        let len = crate::frame_doc::series_uids(series.frames).len() as int;
        assert(crate::frame_doc::epoch_fits(f.epochs[epoch as int], len));
        assert(segment_ok(f, series.objects@[segment as int], len));
        assert(epoch_ok(
            f.epochs[epoch as int],
            series.objects@[segment as int].epochs@[epoch as int],
            len,
        ));
    }
    let uids: Vec<FrameUid> = series_uid_list(&series.frames);
    let rows: Vec<FrameRow> = series_row_list(&series.frames, segment, epoch);
    assert(crate::frames::keys(uids@).len() == uids@.len());
    let records: &Vec<ObjectRecord> = &series.objects[segment].epochs[epoch].objects;
    let r: Result<(), ApplyError> = apply_scene(&uids, &rows, records, w, store);
    proof {
        if r is Ok {
            lemma_scene_is_finite(
                store@[w.target()@],
                crate::frame_doc::series_uids(series.frames),
                rows@,
                records@,
            );
        }
    }
    r
}

/// Apply one epoch of a recording onto the writer's layer: the paired frame row and object row
/// together.
pub fn apply_scene_series_epoch(
    series: &SceneSeries,
    segment: usize,
    epoch: usize,
    w: &SceneWriter,
    store: &mut SceneStore,
) -> (r: Result<(), ApplyError>)
    requires
        old(store).wf(),
    ensures
        final(store).wf(),
        epoch_applied(r, *old(store), *final(store), w.target()@, *series, segment, epoch),
        r is Ok ==> crate::frame_doc::layer_is_finite(final(store)@[w.target()@]),
{
    match series.validate() {
        Ok(()) => {},
        Err(e) => {
            return Err(ApplyError::Scene(e));
        },
    }
    if segment >= segment_count(&series.frames) || epoch >= epoch_count(&series.frames, segment) {
        return Err(ApplyError::NoSuchEpoch);
    }
    apply_row(series, segment, epoch, w, store)
}

/// What comes of applying epoch `(segment, epoch)` of a recording: an invalid recording and an
/// epoch that it does not have are refused, in this order, and the scene is as it was.
pub open spec fn epoch_applied(
    r: Result<(), ApplyError>,
    before: SceneStore,
    after: SceneStore,
    target: Seq<char>,
    series: SceneSeries,
    segment: usize,
    epoch: usize,
) -> bool {
    let segments = crate::frame_doc::series_segments(series.frames);
    if !series_ok(series) {
        r is Err && r->Err_0 is Scene && series_error(r->Err_0->Scene_0, series) && after == before
    } else if !crate::frame_doc::has_epoch(segments, segment as int, epoch as int) {
        r is Err && r->Err_0 is NoSuchEpoch && after == before
    } else {
        scene_applied(
            r,
            before,
            after,
            target,
            crate::frame_doc::series_uids(series.frames),
            segments[segment as int].epochs[epoch as int].rows,
            series.objects@[segment as int].epochs@[epoch as int].objects@,
        )
    }
}

/// A producer that publishes a scene document.
pub struct SceneDocumentProducer {
    /// The document to apply; it is validated on every application.
    pub doc: SceneDocument,
}

impl SceneDocumentProducer {
    /// Apply the document, handing on the outcome.
    pub fn try_populate(&self, w: &SceneWriter, store: &mut SceneStore) -> (r: Result<
        (),
        ApplyError,
    >)
        requires
            old(store).wf(),
        ensures
            final(store).wf(),
            !document_ok(self.doc) ==> r is Err && r->Err_0 is Scene && document_error(
                r->Err_0->Scene_0,
                self.doc,
            ) && *final(store) == *old(store),
            document_ok(self.doc) ==> scene_applied(
                r,
                *old(store),
                *final(store),
                w.target()@,
                crate::frame_doc::document_uids(self.doc.frames),
                crate::frame_doc::document_rows(self.doc.frames),
                self.doc.objects@,
            ),
            r is Ok ==> crate::frame_doc::layer_is_finite(final(store)@[w.target()@]),
    {
        apply_scene_document(&self.doc, w, store)
    }
}

/// All numbers of a record's translation, rotation, path and shape are finite.
pub open spec fn numbers_are_finite(o: ObjectRecord) -> bool {
    &&& forall|i: int| 0 <= i < 3 ==> crate::binary64::finite(#[trigger] o.trans.position[i])
    &&& forall|i: int| 0 <= i < 3 ==> crate::binary64::finite(#[trigger] o.trans.velocity[i])
    &&& o.rotation matches CanonicalRotation::Quat(q) ==> forall|i: int|
        0 <= i < 4 ==> crate::binary64::finite(#[trigger] q[i])
    &&& o.rotation matches CanonicalRotation::Matrix(m) ==> forall|i: int, j: int|
        0 <= i < 3 && 0 <= j < 3 ==> crate::binary64::finite(#[trigger] m[i][j])
    &&& o.path matches Some(p) ==> forall|k: int, j: int|
        0 <= k < p@.len() && 0 <= j < 3 ==> crate::binary64::finite(#[trigger] p@[k][j])
    &&& o.shape matches Some(s) ==> crate::binary64::finite(s.mu) && crate::binary64::finite(s.r_eq)
        && crate::binary64::finite(s.r_pol) && crate::binary64::finite(s.flat_coeff)
}

/// What is wrong with an object, said by its own parts: first of all that no row places its frame,
/// then that a number is not finite, then a shape whose equatorial radius is not above zero, whose
/// polar radius is not, or that is longer than wide. It is in order exactly when none of these
/// holds.
#[verifier::rlimit(30)]
pub proof fn law_objects_are_judged_by_their_parts(o: ObjectRecord, rows: Seq<FrameRow>, len: int)
    ensures
        ({
            let fault = object_fault(o, rows, len);
            let placed = o.frame_index < len && crate::frame_doc::has_row(rows, o.frame_index);
            let (eq, pol) = (
                crate::binary64::scaled(o.shape->0.r_eq),
                crate::binary64::scaled(o.shape->0.r_pol),
            );
            &&& fault == Some(Fault::Orphan) <==> !placed
            &&& fault == Some(Fault::NonFinite) <==> placed && !numbers_are_finite(o)
            &&& fault == Some(Fault::Equator) <==> placed && numbers_are_finite(o)
                && o.shape is Some && eq <= 0
            &&& fault == Some(Fault::Pole) <==> placed && numbers_are_finite(o) && o.shape is Some
                && eq > 0 && pol <= 0
            &&& fault == Some(Fault::Prolate) <==> placed && numbers_are_finite(o)
                && o.shape is Some && eq > 0 && pol > eq
            &&& fault is None <==> placed && numbers_are_finite(o) && (o.shape is Some ==> 0 < pol
                <= eq)
        }),
{
    assert(crate::frame_doc::provided(rows, o.frame_index) <==> crate::frame_doc::has_row(
        rows,
        o.frame_index,
    ));
    lemma_finite3(o.trans.position);
    lemma_finite3(o.trans.velocity);
    assert(crate::frame_doc::rotation_is_finite(o.rotation) <==> (o.rotation matches
        CanonicalRotation::Quat(q) ==> forall|i: int|
        0 <= i < 4 ==> crate::binary64::finite(#[trigger] q[i])) && (o.rotation matches
        CanonicalRotation::Matrix(m) ==> forall|i: int, j: int|
        0 <= i < 3 && 0 <= j < 3 ==> crate::binary64::finite(#[trigger] m[i][j]))) by {
        match o.rotation {
            CanonicalRotation::Quat(q) => {
                lemma_finite4(q);
            },
            CanonicalRotation::Matrix(m) => {
                lemma_finite9(m);
            },
        }
    }
    match o.path {
        Some(p) => {
            lemma_finite_points(p@);
        },
        None => {},
    }
    match o.shape {
        Some(s) => {
            if crate::binary64::finite(s.r_eq) && crate::binary64::finite(s.r_pol) {
                let zero = Binary64 { bits: 0 };
                crate::binary64::lemma_one();
                crate::binary64::law_rank_orders_values(s.r_eq, zero);
                crate::binary64::law_rank_orders_values(s.r_pol, zero);
                crate::binary64::law_rank_orders_values(s.r_eq, s.r_pol);
            }
        },
        None => {},
    }
}

/// Three numbers are finite when each is.
proof fn lemma_finite3(a: [Binary64; 3])
    ensures
        crate::frame_doc::finite3(a) <==> forall|i: int|
            0 <= i < 3 ==> crate::binary64::finite(#[trigger] a[i]),
{
    if crate::frame_doc::finite3(a) {
        assert forall|i: int| 0 <= i < 3 implies crate::binary64::finite(#[trigger] a[i]) by {
            assert(i == 0 || i == 1 || i == 2);
        }
    } else {
        assert(!crate::binary64::finite(a[0]) || !crate::binary64::finite(a[1])
            || !crate::binary64::finite(a[2]));
    }
}

/// Four numbers are finite when each is.
proof fn lemma_finite4(q: [Binary64; 4])
    ensures
        crate::frame_doc::rotation_is_finite(CanonicalRotation::Quat(q)) <==> forall|i: int|
            0 <= i < 4 ==> crate::binary64::finite(#[trigger] q[i]),
{
    if crate::frame_doc::rotation_is_finite(CanonicalRotation::Quat(q)) {
        assert forall|i: int| 0 <= i < 4 implies crate::binary64::finite(#[trigger] q[i]) by {
            assert(i == 0 || i == 1 || i == 2 || i == 3);
        }
    } else {
        assert(!crate::binary64::finite(q[0]) || !crate::binary64::finite(q[1])
            || !crate::binary64::finite(q[2]) || !crate::binary64::finite(q[3]));
    }
}

/// A matrix is finite when each of its numbers is.
proof fn lemma_finite9(m: [[Binary64; 3]; 3])
    ensures
        crate::frame_doc::rotation_is_finite(CanonicalRotation::Matrix(m)) <==> forall|
            i: int,
            j: int,
        |
            0 <= i < 3 && 0 <= j < 3 ==> crate::binary64::finite(#[trigger] m[i][j]),
{
    lemma_finite3(m[0]);
    lemma_finite3(m[1]);
    lemma_finite3(m[2]);
    if crate::frame_doc::rotation_is_finite(CanonicalRotation::Matrix(m)) {
        assert forall|i: int, j: int| 0 <= i < 3 && 0 <= j < 3 implies crate::binary64::finite(
            #[trigger] m[i][j],
        ) by {
            assert(i == 0 || i == 1 || i == 2);
        }
    }
}

/// A polyline is finite when each of its numbers is.
proof fn lemma_finite_points(p: Seq<[Binary64; 3]>)
    ensures
        points_are_finite(p) <==> forall|k: int, j: int|
            0 <= k < p.len() && 0 <= j < 3 ==> crate::binary64::finite(#[trigger] p[k][j]),
{
    if points_are_finite(p) {
        assert forall|k: int, j: int| 0 <= k < p.len() && 0 <= j < 3 implies crate::binary64::finite(
            #[trigger] p[k][j],
        ) by {
            assert(crate::frame_doc::finite3(p[k]));
            lemma_finite3(p[k]);
        }
    } else {
        let k = choose|k: int| 0 <= k < p.len() && !crate::frame_doc::finite3(#[trigger] p[k]);
        lemma_finite3(p[k]);
    }
}

/// A scene document is in order exactly when its frames are accepted and each of its objects is in
/// order, and a refusal is about the first one that is not.
pub proof fn law_documents_are_judged_object_by_object(doc: SceneDocument, e: SceneError)
    ensures
        ({
            let rows = crate::frame_doc::document_rows(doc.frames);
            let len = crate::frame_doc::document_uids(doc.frames).len() as int;
            let good = |i: int| object_fault(doc.objects@[i], rows, len) is None;
            &&& document_ok(doc) <==> crate::frame_doc::document_verdict(doc.frames) is Ok && forall|
                i: int,
            |
                0 <= i < doc.objects@.len() ==> #[trigger] good(i)
            &&& document_error(e, doc) && crate::frame_doc::document_verdict(doc.frames) is Err
                ==> e == SceneError::Frames(crate::frame_doc::document_verdict(doc.frames)->Err_0)
            &&& document_error(e, doc) && crate::frame_doc::document_verdict(doc.frames) is Ok
                ==> exists|i: int|
                0 <= i < doc.objects@.len() && !(#[trigger] good(i)) && object_error(
                    e,
                    doc.objects@[i],
                    object_fault(doc.objects@[i], rows, len)->0,
                    len,
                ) && forall|j: int| 0 <= j < i ==> #[trigger] good(j)
        }),
{
    let rows = crate::frame_doc::document_rows(doc.frames);
    let len = crate::frame_doc::document_uids(doc.frames).len() as int;
    let objects = doc.objects@;
    let good = |i: int| object_fault(objects[i], rows, len) is None;
    if document_ok(doc) {
        assert forall|i: int| 0 <= i < objects.len() implies #[trigger] good(i) by {
            assert(object_fault(objects[i], rows, len) is None);
        }
    }
    if crate::frame_doc::document_verdict(doc.frames) is Ok && forall|i: int|
        0 <= i < objects.len() ==> #[trigger] good(i) {
        assert forall|i: int| 0 <= i < objects.len() implies object_fault(
            #[trigger] objects[i],
            rows,
            len,
        ) is None by {
            assert(good(i));
        }
    }
    if document_error(e, doc) && crate::frame_doc::document_verdict(doc.frames) is Ok {
        let i = choose|i: int|
            0 <= i < objects.len() && object_fault(#[trigger] objects[i], rows, len) is Some
                && object_error(e, objects[i], object_fault(objects[i], rows, len)->0, len)
                && objects_ok(objects.take(i), rows, len);
        assert(!good(i));
        assert forall|j: int| 0 <= j < i implies #[trigger] good(j) by {
            assert(object_fault(objects.take(i)[j], rows, len) is None);
        }
    }
}

/// An object's failure names the object.
pub proof fn law_failures_name_their_object(e: SceneError, o: ObjectRecord, fault: Fault, len: int)
    requires
        object_error(e, o, fault, len),
    ensures
        match e {
            SceneError::OrphanObject { object, frame_index, len: l } => fault == Fault::Orphan
                && object@ == o.id@ && frame_index == o.frame_index && l == len,
            SceneError::NonFinite(object) => fault == Fault::NonFinite && object@ == o.id@,
            SceneError::BadShape { object, why } => object@ == o.id@ && (fault == Fault::Equator
                || fault == Fault::Pole || fault == Fault::Prolate),
            _ => false,
        },
{
}

/// A recording is in order exactly when its frames are accepted, both timelines have as many
/// segments, each pair of them starts at one time and has as many epochs, and each pair of epochs
/// is at one time with every object in order.
#[verifier::rlimit(30)]
pub proof fn law_recordings_are_judged_epoch_by_epoch(series: SceneSeries)
    ensures
        ({
            let f = crate::frame_doc::series_segments(series.frames);
            let o = series.objects@;
            let len = crate::frame_doc::series_uids(series.frames).len() as int;
            let paired = |s: int|
                o[s].start_simtime == f[s].start && o[s].epochs@.len() == f[s].epochs.len();
            let level = |s: int, e: int| o[s].epochs@[e].simtime == f[s].epochs[e].simtime;
            let good = |s: int, e: int, i: int|
                object_fault(o[s].epochs@[e].objects@[i], f[s].epochs[e].rows, len) is None;
            series_ok(series) <==> {
                &&& crate::frame_doc::series_verdict(series.frames) is Ok
                &&& o.len() == f.len()
                &&& forall|s: int| 0 <= s < o.len() ==> #[trigger] paired(s)
                &&& forall|s: int, e: int|
                    0 <= s < o.len() && 0 <= e < o[s].epochs@.len() ==> #[trigger] level(s, e)
                &&& forall|s: int, e: int, i: int|
                    0 <= s < o.len() && 0 <= e < o[s].epochs@.len() && 0 <= i
                        < o[s].epochs@[e].objects@.len() ==> #[trigger] good(s, e, i)
            }
        }),
{
    let f = crate::frame_doc::series_segments(series.frames);
    let o = series.objects@;
    let len = crate::frame_doc::series_uids(series.frames).len() as int;
    let paired = |s: int|
        o[s].start_simtime == f[s].start && o[s].epochs@.len() == f[s].epochs.len();
    let level = |s: int, e: int| o[s].epochs@[e].simtime == f[s].epochs[e].simtime;
    let good = |s: int, e: int, i: int|
        object_fault(o[s].epochs@[e].objects@[i], f[s].epochs[e].rows, len) is None;
    if series_ok(series) {
        assert forall|s: int| 0 <= s < o.len() implies #[trigger] paired(s) by {
            assert(segment_ok(f[s], o[s], len));
        }
        assert forall|s: int, e: int| 0 <= s < o.len() && 0 <= e < o[s].epochs@.len() implies
            #[trigger] level(s, e) by {
            assert(segment_ok(f[s], o[s], len));
            assert(epoch_ok(f[s].epochs[e], o[s].epochs@[e], len));
        }
        assert forall|s: int, e: int, i: int|
            0 <= s < o.len() && 0 <= e < o[s].epochs@.len() && 0 <= i
                < o[s].epochs@[e].objects@.len() implies #[trigger] good(s, e, i) by {
            assert(segment_ok(f[s], o[s], len));
            assert(epoch_ok(f[s].epochs[e], o[s].epochs@[e], len));
            assert(object_fault(o[s].epochs@[e].objects@[i], f[s].epochs[e].rows, len) is None);
        }
    }
    if crate::frame_doc::series_verdict(series.frames) is Ok && o.len() == f.len() && (forall|
        s: int,
    |
        0 <= s < o.len() ==> #[trigger] paired(s)) && (forall|s: int, e: int|
        0 <= s < o.len() && 0 <= e < o[s].epochs@.len() ==> #[trigger] level(s, e)) && (forall|
        s: int,
        e: int,
        i: int,
    |
        0 <= s < o.len() && 0 <= e < o[s].epochs@.len() && 0 <= i < o[s].epochs@[e].objects@.len()
            ==> #[trigger] good(s, e, i)) {
        assert forall|s: int| 0 <= s < f.len() && s < o.len() implies segment_ok(
            f[s],
            #[trigger] o[s],
            len,
        ) by {
            assert(paired(s));
            assert forall|e: int| 0 <= e < f[s].epochs.len() && e < o[s].epochs@.len() implies
                epoch_ok(f[s].epochs[e], #[trigger] o[s].epochs@[e], len) by {
                assert(level(s, e));
                assert forall|i: int| 0 <= i < o[s].epochs@[e].objects@.len() implies object_fault(
                    #[trigger] o[s].epochs@[e].objects@[i],
                    f[s].epochs[e].rows,
                    len,
                ) is None by {
                    assert(good(s, e, i));
                }
            }
        }
    }
}

/// Where timelines with as many segments are said to be misaligned, the failure names the first
/// segment that is: those before it start together and have as many epochs, and it does not, or
/// the epoch that is named is at two times.
pub proof fn law_misalignment_is_where_it_is_said_to_be(err: SceneError, series: SceneSeries)
    requires
        series_error(err, series),
        crate::frame_doc::series_verdict(series.frames) is Ok,
        series.objects@.len() == crate::frame_doc::series_segments(series.frames).len(),
        series.objects@.len() <= usize::MAX,
        forall|s: int|
            0 <= s < series.objects@.len() ==> (#[trigger] series.objects@[s]).epochs@.len()
                <= usize::MAX,
    ensures
        err matches SceneError::SeriesMisaligned { segment, epoch, why } ==> {
            let f = crate::frame_doc::series_segments(series.frames);
            let o = series.objects@;
            let s = segment as int;
            &&& s < o.len()
            &&& forall|j: int|
                0 <= j < s ==> (#[trigger] o[j]).start_simtime == f[j].start && o[j].epochs@.len()
                    == f[j].epochs.len()
            &&& match epoch {
                None => o[s].start_simtime != f[s].start || o[s].epochs@.len()
                    != f[s].epochs.len(),
                Some(e) => e < o[s].epochs@.len() && o[s].epochs@[e as int].simtime
                    != f[s].epochs[e as int].simtime,
            }
        },
{
    let f = crate::frame_doc::series_segments(series.frames);
    let o = series.objects@;
    let len = crate::frame_doc::series_uids(series.frames).len() as int;
    if err is SeriesMisaligned {
        let s = choose|s: int|
            0 <= s < f.len() && !segment_ok(f[s], #[trigger] o[s], len) && segments_ok(
                f.take(s),
                o.take(s),
                len,
            ) && segment_error(err, s, f[s], o[s], len);
        assert forall|j: int| 0 <= j < s implies (#[trigger] o[j]).start_simtime == f[j].start
            && o[j].epochs@.len() == f[j].epochs.len() by {
            assert(segment_ok(f.take(s)[j], o.take(s)[j], len));
        }
        if o[s].start_simtime == f[s].start && o[s].epochs@.len() == f[s].epochs.len() {
            let e = choose|e: int|
                0 <= e < o[s].epochs@.len() && !epoch_ok(
                    f[s].epochs[e],
                    #[trigger] o[s].epochs@[e],
                    len,
                ) && epochs_ok(f[s].epochs.take(e), o[s].epochs@.take(e), len) && epoch_error(
                    err,
                    s,
                    e,
                    f[s].epochs[e],
                    o[s].epochs@[e],
                    len,
                );
            assert(o[s].epochs@[e].simtime != f[s].epochs[e].simtime);
        }
    }
}

/// Of the records with one id the last is the object: it stands on the frame that it names, with
/// its label, kind, position, velocity, shape and path as recorded. No other object is there.
pub proof fn law_objects_are_placed_as_recorded(
    objects: Map<Seq<char>, Arc<SceneObject>>,
    uids: Seq<FrameKey>,
    records: Seq<ObjectRecord>,
    i: int,
)
    requires
        objects_of(objects, uids, records),
        0 <= i < records.len(),
        forall|j: int| i < j < records.len() ==> (#[trigger] records[j]).id@ != records[i].id@,
    ensures
        ({
            let (r, o) = (records[i], objects[records[i].id@]);
            &&& objects.contains_key(r.id@)
            &&& o.id@ == r.id@ && o.label@ == r.label@
            &&& o.frame@ == uids[r.frame_index as int]
            &&& (o.kind == ObjectKind::Body <==> r.kind == ObjectKindWire::Body) && (o.kind
                == ObjectKind::Spacecraft <==> r.kind == ObjectKindWire::Spacecraft) && (o.kind
                == ObjectKind::Site <==> r.kind == ObjectKindWire::Site)
            &&& o.state.position.x == r.trans.position[0] && o.state.position.y
                == r.trans.position[1] && o.state.position.z == r.trans.position[2]
            &&& o.state.velocity.x == r.trans.velocity[0] && o.state.velocity.y
                == r.trans.velocity[1] && o.state.velocity.z == r.trans.velocity[2]
            &&& o.state.attitude == crate::frame_doc::attitude_of(r.rotation)
            &&& o.shape is Some <==> r.shape is Some
            &&& o.shape is Some ==> {
                let (a, b) = (o.shape->0.ellipsoid, r.shape->0);
                a.name@ == b.name@ && a.mu == b.mu && a.r_eq == b.r_eq && a.r_pol == b.r_pol
                    && a.flat_coeff == b.flat_coeff
            }
            &&& o.path is Some <==> r.path is Some
            &&& o.path is Some ==> o.path->0.points@.len() == r.path->0@.len()
            &&& o.path is Some ==> forall|k: int|
                0 <= k < r.path->0@.len() ==> {
                    let p = #[trigger] o.path->0.points@[k];
                    p.x == r.path->0@[k][0] && p.y == r.path->0@[k][1] && p.z == r.path->0@[k][2]
                }
        }),
        forall|id: Seq<char>| #[trigger]
            objects.contains_key(id) ==> exists|j: int|
                0 <= j < records.len() && (#[trigger] records[j]).id@ == id,
{
    assert(last_of_id(records, i));
    let (r, o) = (records[i], objects[records[i].id@]);
    crate::frame_doc::law_state_keeps_every_number(r.trans, r.rotation);
    assert(record_object(*o, r, uids));
}

/// A scene is applied exactly when every parent that a row names has a row. Then only the
/// writer's layer changes, and it holds the scene's frames and objects at the first row's time.
/// Otherwise nothing changes.
pub proof fn law_scenes_are_applied_whole_or_not_at_all(
    r: Result<(), ApplyError>,
    before: SceneStore,
    after: SceneStore,
    target: Seq<char>,
    uids: Seq<FrameKey>,
    rows: Seq<FrameRow>,
    records: Seq<ObjectRecord>,
)
    requires
        scene_applied(r, before, after, target, uids, rows, records),
    ensures
        r is Ok <==> forall|i: int|
            0 <= i < rows.len() && (#[trigger] rows[i]).parent is Some
                ==> crate::frame_doc::has_row(rows, rows[i].parent->0),
        r is Ok ==> after@.contains_key(target) && after@[target].epoch is Some
            && crate::frame_doc::frames_of(
            after@[target].frames,
            uids,
            rows,
            after@[target].epoch->0,
        ) && objects_of(after@[target].objects, uids, records),
        r is Ok && rows.len() > 0 && rows[0].epoch is Some ==> after@[target].epoch->0.secs()
            == rows[0].epoch->0,
        r is Ok ==> forall|l: Seq<char>|
            l != target ==> (#[trigger] after@.contains_key(l) <==> before@.contains_key(l)) && (
            before@.contains_key(l) ==> after@[l] == before@[l]),
        r is Err ==> after == before,
{
    assert forall|i: int| 0 <= i < rows.len() implies (crate::frame_doc::dangles(rows, i) <==> (
    #[trigger] rows[i]).parent is Some && !crate::frame_doc::has_row(rows, rows[i].parent->0)) by {
        if rows[i].parent is Some {
            let p = rows[i].parent->0;
            assert(crate::frame_doc::provided(rows, p) <==> crate::frame_doc::has_row(rows, p));
        }
    }
    if r is Err {
        let i = choose|i: int|
            0 <= i < rows.len() && crate::frame_doc::dangles(rows, i);
        assert(rows[i].parent is Some);
    } else {
        assert forall|i: int| 0 <= i < rows.len() && (#[trigger] rows[i]).parent is Some implies
            crate::frame_doc::has_row(rows, rows[i].parent->0) by {
            assert(!crate::frame_doc::dangles(rows, i));
        }
        assert(after@ == before@.insert(target, after@[target]));
    }
}

/// An epoch of a recording is applied as that epoch's frames and objects and no other's. A
/// recording that is not in order, and an epoch that it does not have, change nothing.
pub proof fn law_epochs_are_applied_as_recorded(
    r: Result<(), ApplyError>,
    before: SceneStore,
    after: SceneStore,
    target: Seq<char>,
    series: SceneSeries,
    segment: usize,
    epoch: usize,
)
    requires
        epoch_applied(r, before, after, target, series, segment, epoch),
    ensures
        ({
            let f = crate::frame_doc::series_segments(series.frames);
            let (s, e) = (segment as int, epoch as int);
            let there = s < f.len() && e < f[s].epochs.len();
            &&& r is Err ==> after == before
            &&& !series_ok(series) ==> (r matches Err(ApplyError::Scene(why)) && series_error(
                why,
                series,
            ))
            &&& series_ok(series) && !there ==> r is Err && r->Err_0 is NoSuchEpoch
            &&& series_ok(series) && there ==> scene_applied(
                r,
                before,
                after,
                target,
                crate::frame_doc::series_uids(series.frames),
                f[s].epochs[e].rows,
                series.objects@[s].epochs@[e].objects@,
            )
        }),
{
}

} // verus!
