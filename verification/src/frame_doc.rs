//! Applying frame documents to a scene.
//!
//! A frame document of `astrodyn_frame_doc` holds a table of identities and one record per
//! frame; a frame series holds such records over time. Both are read only after their own
//! validation — schema version, conventions, structure — has passed, and what validation leaves
//! open, a parent that no record provides, is refused before anything reaches the scene.

use astrodyn_frame_doc::{CanonicalRotation as OutRotation, DocError, FrameDocument, FrameSeries};
use astrodyn_frame_doc::FrameRecord as OutRecord;
use astrodyn_quantities::{FrameRole as R, FrameUid as OutUid, Tag};
use vstd::prelude::*;
use std::sync::Arc;
use crate::binary64::Binary64;
use crate::ident::{FrameClass, FrameKey, FrameRole, FrameUid};
use crate::scene::{Attitude, BodyState, Epoch, FrameRecord, LayerModel, SceneObject, SceneStore, SceneWriter, Transaction, Vec3};
use crate::scene_doc::SceneError;

verus! {

/// `astrodyn_quantities::FrameUid`: the identity of a frame.
#[verifier::external_type_specification]
#[verifier::external_body]
pub struct ExOutUid(OutUid);

/// `astrodyn_frame_doc::FrameRecord`: one frame of a document.
#[verifier::external_type_specification]
#[verifier::external_body]
pub struct ExOutRecord(OutRecord);

/// `astrodyn_frame_doc::FrameDocument`: the frames of one instant.
#[verifier::external_type_specification]
#[verifier::external_body]
pub struct ExFrameDocument(FrameDocument);

/// `astrodyn_frame_doc::FrameSeries`: frames over time, in segments of epochs.
#[verifier::external_type_specification]
#[verifier::external_body]
pub struct ExFrameSeries(FrameSeries);

/// `astrodyn_frame_doc::DocError`: why a document or a series was rejected.
#[verifier::external_type_specification]
#[verifier::external_body]
pub struct ExDocError(DocError);

/// A position and a velocity.
#[derive(Clone, Copy, Debug, PartialEq, Eq)]
pub struct TransRecord {
    /// Position (metres).
    pub position: [Binary64; 3],
    /// Velocity (m/s).
    pub velocity: [Binary64; 3],
}

/// A rotation, parent to this, in the form in which a producer holds it.
#[derive(Clone, Copy, Debug, PartialEq, Eq)]
pub enum CanonicalRotation {
    /// A quaternion, scalar first.
    Quat([Binary64; 4]),
    /// A matrix, by columns.
    Matrix([[Binary64; 3]; 3]),
}

/// One frame of a document.
#[derive(Clone, Copy, Debug, PartialEq, Eq)]
pub struct FrameRow {
    /// Which identity of the table this frame has.
    pub uid_index: u32,
    /// Which identity of the table its parent has; `None` for a root.
    pub parent: Option<u32>,
    /// The time for which the state holds, in TDB seconds.
    pub epoch: Option<Binary64>,
    /// Position and velocity relative to the parent.
    pub trans: TransRecord,
    /// Orientation relative to the parent.
    pub rotation: CanonicalRotation,
}

/// One epoch of a series.
pub struct EpochModel {
    pub simtime: Binary64,
    pub rows: Seq<FrameRow>,
}

/// A run of epochs of a series.
pub struct SegmentModel {
    pub start: Binary64,
    pub epochs: Seq<EpochModel>,
}

/// The identities that a table holds.
pub uninterp spec fn uid_table(uids: Vec<OutUid>) -> Seq<FrameKey>;

/// The frames that a list of records holds.
pub uninterp spec fn row_table(records: Vec<OutRecord>) -> Seq<FrameRow>;

/// The identities that a document holds.
pub uninterp spec fn document_uids(doc: FrameDocument) -> Seq<FrameKey>;

/// The frames that a document holds.
pub uninterp spec fn document_rows(doc: FrameDocument) -> Seq<FrameRow>;

/// What `FrameDocument::validate` returns for a document.
pub uninterp spec fn document_verdict(doc: FrameDocument) -> Result<(), DocError>;

/// Whether `FrameDocument::validate` accepts a document.
pub open spec fn document_accepted(doc: FrameDocument) -> bool {
    document_verdict(doc) is Ok
}

/// The identities that a series holds.
pub uninterp spec fn series_uids(series: FrameSeries) -> Seq<FrameKey>;

/// The segments that a series holds.
pub uninterp spec fn series_segments(series: FrameSeries) -> Seq<SegmentModel>;

/// What `FrameSeries::validate` returns for a series.
pub uninterp spec fn series_verdict(series: FrameSeries) -> Result<(), DocError>;

/// Whether `FrameSeries::validate` accepts a series.
pub open spec fn series_accepted(series: FrameSeries) -> bool {
    series_verdict(series) is Ok
}

/// No identity stands in the table twice.
pub open spec fn unique(uids: Seq<FrameKey>) -> bool {
    forall|i: int, j: int|
        0 <= i < j < uids.len() ==> (#[trigger] uids[i]) != (#[trigger] uids[j])
}

/// Every index of the rows lies in a table of `len` identities.
pub open spec fn indices_fit(rows: Seq<FrameRow>, len: int) -> bool {
    forall|i: int|
        0 <= i < rows.len() ==> (#[trigger] rows[i]).uid_index < len && (rows[i].parent matches Some(
            p,
        ) ==> p < len)
}

/// Every index of the rows lies in a table of `len` identities, none is its own parent, and no
/// identity has two rows.
pub open spec fn rows_fit(rows: Seq<FrameRow>, len: int) -> bool {
    &&& indices_fit(rows, len)
    &&& forall|i: int|
        0 <= i < rows.len() ==> (#[trigger] rows[i]).parent != Some(rows[i].uid_index)
    &&& forall|i: int, j: int|
        0 <= i < j < rows.len() ==> (#[trigger] rows[i]).uid_index != (#[trigger] rows[j]).uid_index
}

/// All three numbers are finite.
pub open spec fn finite3(a: [Binary64; 3]) -> bool {
    crate::binary64::finite(a[0]) && crate::binary64::finite(a[1]) && crate::binary64::finite(a[2])
}

/// All numbers of a rotation are finite.
pub open spec fn rotation_is_finite(r: CanonicalRotation) -> bool {
    match r {
        CanonicalRotation::Quat(q) => crate::binary64::finite(q[0]) && crate::binary64::finite(q[1])
            && crate::binary64::finite(q[2]) && crate::binary64::finite(q[3]),
        CanonicalRotation::Matrix(m) => finite3(m[0]) && finite3(m[1]) && finite3(m[2]),
    }
}

/// All numbers of a row are finite.
pub open spec fn row_is_finite(row: FrameRow) -> bool {
    &&& finite3(row.trans.position) && finite3(row.trans.velocity)
    &&& rotation_is_finite(row.rotation)
    &&& row.epoch matches Some(e) ==> crate::binary64::finite(e)
}

/// All numbers of the rows are finite.
pub open spec fn rows_finite(rows: Seq<FrameRow>) -> bool {
    forall|i: int| 0 <= i < rows.len() ==> row_is_finite(#[trigger] rows[i])
}

/// What a series that was accepted looks like: every segment has epochs and starts at its first
/// one, and every epoch is at a finite time and has one row for each identity, all finite.
pub open spec fn segments_fit(segments: Seq<SegmentModel>, len: int) -> bool {
    forall|s: int|
        0 <= s < segments.len() ==> {
            &&& (#[trigger] segments[s]).epochs.len() > 0
            &&& segments[s].start == segments[s].epochs[0].simtime
            &&& forall|e: int|
                0 <= e < segments[s].epochs.len() ==> epoch_fits(
                    #[trigger] segments[s].epochs[e],
                    len,
                )
        }
}

/// An epoch at a finite time with one row for each of `len` identities, all finite.
pub open spec fn epoch_fits(epoch: EpochModel, len: int) -> bool {
    &&& crate::binary64::finite(epoch.simtime)
    &&& epoch.rows.len() == len
    &&& rows_fit(epoch.rows, len)
    &&& rows_finite(epoch.rows)
}

/// `FrameDocument::validate`: accepts a document or says why not, by the document alone. In one that it accepts no
/// identity stands in the table twice, every index lies in the table, no frame is its own parent
/// and none occurs twice, and every number of a frame is finite.
#[verifier::external_body]
pub(crate) fn validate_document(doc: &FrameDocument) -> (r: Result<(), DocError>)
    ensures
        r == document_verdict(*doc),
        r is Ok ==> unique(document_uids(*doc)) && rows_fit(
            document_rows(*doc),
            document_uids(*doc).len() as int,
        ) && rows_finite(document_rows(*doc)),
{
    doc.validate()
}

/// `FrameSeries::validate`: accepts a series or says why not, by the series alone. In one that it
/// accepts no identity stands in the table twice, and every segment and epoch is complete.
#[verifier::external_body]
pub(crate) fn validate_series(series: &FrameSeries) -> (r: Result<(), DocError>)
    ensures
        r == series_verdict(*series),
        r is Ok ==> unique(series_uids(*series)) && segments_fit(
            series_segments(*series),
            series_uids(*series).len() as int,
        ),
{
    series.validate()
}

/// The field `uids` of `astrodyn_frame_doc::FrameDocument`: the table of identities.
#[verifier::external_body]
fn uids_of_document(doc: &FrameDocument) -> (r: &Vec<OutUid>)
    ensures
        uid_table(*r) == document_uids(*doc),
        r@.len() == document_uids(*doc).len(),
{
    &doc.uids
}

/// The field `records` of `astrodyn_frame_doc::FrameDocument`: one record per frame.
#[verifier::external_body]
fn records_of_document(doc: &FrameDocument) -> (r: &Vec<OutRecord>)
    ensures
        row_table(*r) == document_rows(*doc),
        r@.len() == document_rows(*doc).len(),
{
    &doc.records
}

/// The field `uids` of `astrodyn_frame_doc::FrameSeries`: the table of identities.
#[verifier::external_body]
fn uids_of_series(series: &FrameSeries) -> (r: &Vec<OutUid>)
    ensures
        uid_table(*r) == series_uids(*series),
        r@.len() == series_uids(*series).len(),
{
    &series.uids
}

/// The length of the field `segments` of `astrodyn_frame_doc::FrameSeries`.
#[verifier::external_body]
pub(crate) fn segment_count(series: &FrameSeries) -> (r: usize)
    ensures
        r == series_segments(*series).len(),
{
    series.segments.len()
}

/// The field `start_simtime` of a segment of `astrodyn_frame_doc::FrameSeries`.
#[verifier::external_body]
pub(crate) fn segment_start(series: &FrameSeries, s: usize) -> (r: Binary64)
    requires
        s < series_segments(*series).len(),
    ensures
        r == series_segments(*series)[s as int].start,
{
    Binary64 { bits: series.segments[s].start_simtime.to_bits() }
}

/// The length of the field `epochs` of a segment of `astrodyn_frame_doc::FrameSeries`.
#[verifier::external_body]
pub(crate) fn epoch_count(series: &FrameSeries, s: usize) -> (r: usize)
    requires
        s < series_segments(*series).len(),
    ensures
        r == series_segments(*series)[s as int].epochs.len(),
{
    series.segments[s].epochs.len()
}

/// The field `simtime` of an epoch of `astrodyn_frame_doc::FrameSeries`.
#[verifier::external_body]
pub(crate) fn epoch_simtime(series: &FrameSeries, s: usize, e: usize) -> (r: Binary64)
    requires
        s < series_segments(*series).len(),
        e < series_segments(*series)[s as int].epochs.len(),
    ensures
        r == series_segments(*series)[s as int].epochs[e as int].simtime,
{
    Binary64 { bits: series.segments[s].epochs[e].simtime.to_bits() }
}

/// The field `records` of an epoch of `astrodyn_frame_doc::FrameSeries`.
#[verifier::external_body]
fn records_of_epoch(series: &FrameSeries, s: usize, e: usize) -> (r: &Vec<OutRecord>)
    requires
        s < series_segments(*series).len(),
        e < series_segments(*series)[s as int].epochs.len(),
    ensures
        row_table(*r) == series_segments(*series)[s as int].epochs[e as int].rows,
        r@.len() == series_segments(*series)[s as int].epochs[e as int].rows.len(),
{
    &series.segments[s].epochs[e].records
}

/// The fields of the `astrodyn_quantities::FrameUid` at a place in a table: namespace, class (by
/// its place in the order in which that crate declares the classes), role and tag.
#[verifier::external_body]
fn read_uid(uids: &Vec<OutUid>, i: usize) -> (r: (u16, u8, FrameRole, Option<String>))
    requires
        i < uids@.len(),
    ensures
        r.0 == uid_table(*uids)[i as int].namespace,
        r.1 == uid_table(*uids)[i as int].class,
        r.1 < 8,
        r.2.place() == uid_table(*uids)[i as int].role,
        r.2.custom_text() == uid_table(*uids)[i as int].custom,
        uid_table(*uids)[i as int].tag == match r.3 {
            Some(t) => Some(t@),
            None => None,
        },
{
    let u = &uids[i];
    let role = match &u.role {
        R::Primary => FrameRole::Primary, R::AltInertial => FrameRole::AltInertial,
        R::AltPfix => FrameRole::AltPfix, R::CoreBody => FrameRole::CoreBody,
        R::CompositeBody => FrameRole::CompositeBody, R::Structure => FrameRole::Structure,
        R::VehiclePoint => FrameRole::VehiclePoint, R::Lvlh => FrameRole::Lvlh,
        R::Ned => FrameRole::Ned, R::Custom(s) => FrameRole::Custom(s.to_string()),
        _ => FrameRole::Primary,
    };
    let tag = match &u.tag {
        Tag::Named(name) => Some(name.to_string()),
        Tag::None => None,
    };
    (u.namespace.0, u.class as u8, role, tag)
}

/// The fields of the `astrodyn_frame_doc::FrameRecord` at a place in a list, with its numbers by
/// bit pattern. Its name, angular velocity and origin are not carried.
#[verifier::external_body]
fn read_row(records: &Vec<OutRecord>, i: usize) -> (r: FrameRow)
    requires
        i < records@.len(),
    ensures
        r == row_table(*records)[i as int],
{
    let r = &records[i];
    let position = r.trans.position.map(|v| Binary64 { bits: v.to_bits() });
    let velocity = r.trans.velocity.map(|v| Binary64 { bits: v.to_bits() });
    let rotation = match &r.rotation {
        OutRotation::Quat(q) => CanonicalRotation::Quat(q.map(|v| Binary64 { bits: v.to_bits() })),
        OutRotation::Matrix(m) => CanonicalRotation::Matrix(
            m.map(|c| c.map(|v| Binary64 { bits: v.to_bits() })),
        ),
    };
    let epoch = r.epoch.map(|v| Binary64 { bits: v.to_bits() });
    let trans = TransRecord { position, velocity };
    FrameRow { uid_index: r.uid_index, parent: r.parent, epoch, trans, rotation }
}

/// Read a whole table of identities.
fn read_uids(uids: &Vec<OutUid>) -> (r: Vec<FrameUid>)
    requires
        uid_table(*uids).len() == uids@.len(),
    ensures
        crate::frames::keys(r@) == uid_table(*uids),
{
    let mut r: Vec<FrameUid> = Vec::new();
    let mut i: usize = 0;
    while i < uids.len()
        invariant
            uid_table(*uids).len() == uids@.len(),
            i <= uids@.len(),
            r@.len() == i,
            forall|j: int| 0 <= j < i ==> (#[trigger] r@[j])@ == uid_table(*uids)[j],
        decreases uids@.len() - i,
    {
        let (namespace, class, role, tag): (u16, u8, FrameRole, Option<String>) = read_uid(uids, i);
        r.push(FrameUid { namespace, class: FrameClass::at(class), role, tag });
        i = i + 1;
    }
    assert(crate::frames::keys(r@) =~= uid_table(*uids));
    r
}

/// Read a whole list of records.
fn read_rows(records: &Vec<OutRecord>) -> (r: Vec<FrameRow>)
    requires
        row_table(*records).len() == records@.len(),
    ensures
        r@ == row_table(*records),
{
    let mut r: Vec<FrameRow> = Vec::new();
    let mut i: usize = 0;
    while i < records.len()
        invariant
            row_table(*records).len() == records@.len(),
            i <= records@.len(),
            r@.len() == i,
            forall|j: int| 0 <= j < i ==> (#[trigger] r@[j]) == row_table(*records)[j],
        decreases records@.len() - i,
    {
        r.push(read_row(records, i));
        i = i + 1;
    }
    assert(r@ =~= row_table(*records));
    r
}

/// The identities of a document.
pub fn document_uid_list(doc: &FrameDocument) -> (r: Vec<FrameUid>)
    ensures
        crate::frames::keys(r@) == document_uids(*doc),
{
    read_uids(uids_of_document(doc))
}

/// The frames of a document.
pub fn document_row_list(doc: &FrameDocument) -> (r: Vec<FrameRow>)
    ensures
        r@ == document_rows(*doc),
{
    read_rows(records_of_document(doc))
}

/// The identities of a series.
pub fn series_uid_list(series: &FrameSeries) -> (r: Vec<FrameUid>)
    ensures
        crate::frames::keys(r@) == series_uids(*series),
{
    read_uids(uids_of_series(series))
}

/// The frames of one epoch of a series.
pub fn series_row_list(series: &FrameSeries, s: usize, e: usize) -> (r: Vec<FrameRow>)
    requires
        s < series_segments(*series).len(),
        e < series_segments(*series)[s as int].epochs.len(),
    ensures
        r@ == series_segments(*series)[s as int].epochs[e as int].rows,
{
    read_rows(records_of_epoch(series, s, e))
}

/// Failure applying a document or a series to a scene.
#[derive(Debug)]
pub enum ApplyError {
    /// Validation rejected the document before any state was applied.
    Invalid(DocError),
    /// A record names a parent that no record in the set provides.
    DanglingParent {
        /// The record whose parent is missing.
        child: FrameUid,
        /// The parent that is named but absent.
        parent: FrameUid,
    },
    /// The requested segment or epoch is out of range for the series.
    NoSuchEpoch,
    /// A scene-level validation failure.
    Scene(SceneError),
}

/// Some row is that of identity `index`.
pub open spec fn provided(rows: Seq<FrameRow>, index: u32) -> bool {
    exists|i: int| 0 <= i < rows.len() && (#[trigger] rows[i]).uid_index == index
}

/// Row `i` names a parent that no row provides.
pub open spec fn dangles(rows: Seq<FrameRow>, i: int) -> bool {
    rows[i].parent matches Some(p) && !provided(rows, p)
}

/// Row `i` is the first that names a parent that no row provides.
pub open spec fn first_dangling(rows: Seq<FrameRow>, i: int) -> bool {
    &&& 0 <= i < rows.len()
    &&& dangles(rows, i)
    &&& forall|j: int| 0 <= j < i ==> !dangles(rows, j)
}

/// No row names a parent that no row provides.
pub open spec fn parents_provided(rows: Seq<FrameRow>) -> bool {
    forall|i: int| 0 <= i < rows.len() ==> !dangles(rows, i)
}

/// Which identities of a table of `len` have a row: true at `i` where some row is that of
/// identity `i`.
pub fn placed_frames(len: usize, rows: &Vec<FrameRow>) -> (r: Vec<bool>)
    ensures
        r@.len() == len,
        forall|i: int|
            0 <= i < len && i <= u32::MAX ==> (#[trigger] r@[i]) == provided(rows@, i as u32),
        forall|i: int| 0 <= i < len && i > u32::MAX ==> !(#[trigger] r@[i]),
{
    let mut placed: Vec<bool> = Vec::new();
    let mut k: usize = 0;
    while k < len
        invariant
            k <= len,
            placed@.len() == k,
            forall|i: int| 0 <= i < k ==> !(#[trigger] placed@[i]),
        decreases len - k,
    {
        placed.push(false);
        k = k + 1;
    }
    let mut n: usize = 0;
    while n < rows.len()
        invariant
            n <= rows@.len(),
            placed@.len() == len,
            forall|i: int|
                0 <= i < len ==> ((#[trigger] placed@[i]) <==> exists|j: int|
                    0 <= j < n && (#[trigger] rows@[j]).uid_index == i),
        decreases rows@.len() - n,
    {
        let at: usize = rows[n].uid_index as usize;
        let ghost before = placed@;
        if at < placed.len() {
            placed.set(at, true);
        }
        proof {
            assert forall|i: int| 0 <= i < len implies ((#[trigger] placed@[i]) <==> exists|j: int|
                0 <= j < n + 1 && (#[trigger] rows@[j]).uid_index == i) by {
                if before[i] {
                    let j = choose|j: int| 0 <= j < n && (#[trigger] rows@[j]).uid_index == i;
                    assert(rows@[j].uid_index == i);
                }
                if i == at {
                    assert(rows@[n as int].uid_index == i);
                }
            }
        }
        n = n + 1;
    }
    assert forall|i: int| 0 <= i < len && i <= u32::MAX implies (#[trigger] placed@[i])
        == provided(rows@, i as u32) by {
        if provided(rows@, i as u32) {
            let j = choose|j: int|
                0 <= j < rows@.len() && (#[trigger] rows@[j]).uid_index == i as u32;
            assert(rows@[j].uid_index == i);
        }
    }
    placed
}

/// Check that every row's parent is provided by some row of the set. Validation checks that a
/// parent's index is in range, but not that a record has it; a dangling one is caught here.
pub fn check_parents(uids: &Vec<FrameUid>, rows: &Vec<FrameRow>) -> (r: Result<(), ApplyError>)
    requires
        indices_fit(rows@, uids@.len() as int),
    ensures
        r is Ok <==> parents_provided(rows@),
        r is Err ==> exists|i: int| #[trigger]
            first_dangling(rows@, i) && r == Err::<(), ApplyError>(
                ApplyError::DanglingParent {
                    child: uids@[rows@[i].uid_index as int],
                    parent: uids@[rows@[i].parent->0 as int],
                },
            ),
{
    let placed: Vec<bool> = placed_frames(uids.len(), rows);
    let mut n: usize = 0;
    while n < rows.len()
        invariant
            n <= rows@.len(),
            indices_fit(rows@, uids@.len() as int),
            placed@.len() == uids@.len(),
            forall|i: int|
                0 <= i < placed@.len() && i <= u32::MAX ==> (#[trigger] placed@[i]) == provided(
                    rows@,
                    i as u32,
                ),
            forall|i: int| 0 <= i < n ==> !dangles(rows@, i),
        decreases rows@.len() - n,
    {
        let row: FrameRow = rows[n];
        match row.parent {
            Some(p) => {
                assert(placed@[p as int] == provided(rows@, p));
                if !placed[p as usize] {
                    assert(first_dangling(rows@, n as int));
                    return Err(
                        ApplyError::DanglingParent {
                            child: uids[row.uid_index as usize].clone(),
                            parent: uids[p as usize].clone(),
                        },
                    );
                }
            },
            None => {},
        }
        n = n + 1;
    }
    Ok(())
}

/// The time of a set of rows: the first row's epoch, or zero where it has none.
pub open spec fn rows_epoch(rows: Seq<FrameRow>) -> Binary64 {
    if rows.len() > 0 {
        match rows[0].epoch {
            Some(e) => e,
            None => Binary64 { bits: 0 },
        }
    } else {
        Binary64 { bits: 0 }
    }
}

/// The transaction epoch for a set of rows: the first row's epoch if it has one, else zero. A
/// snapshot is a single instant, so one layer epoch is right.
pub fn tx_epoch(rows: &Vec<FrameRow>) -> (r: Epoch)
    ensures
        r.secs() == rows_epoch(rows@),
{
    let zero: Binary64 = Binary64::from_bits(0);
    if rows.len() > 0 {
        match rows[0].epoch {
            Some(e) => Epoch::from_seconds(e),
            None => Epoch::from_seconds(zero),
        }
    } else {
        Epoch::from_seconds(zero)
    }
}

/// A vector by its components.
pub open spec fn vec3(a: [Binary64; 3]) -> Vec3 {
    Vec3 { x: a[0], y: a[1], z: a[2] }
}

/// A vector by its components.
pub(crate) fn to_vec3(a: [Binary64; 3]) -> (r: Vec3)
    ensures
        r == vec3(a),
{
    Vec3 { x: a[0], y: a[1], z: a[2] }
}

/// An orientation from a canonical rotation: a quaternion's scalar moves from first to last, a
/// matrix keeps its columns.
pub open spec fn attitude_of(r: CanonicalRotation) -> Attitude {
    match r {
        CanonicalRotation::Quat(q) => Attitude::Quat { x: q[1], y: q[2], z: q[3], w: q[0] },
        CanonicalRotation::Matrix(m) => Attitude::Matrix {
            x_axis: vec3(m[0]),
            y_axis: vec3(m[1]),
            z_axis: vec3(m[2]),
        },
    }
}

/// An orientation from a canonical rotation: a quaternion's scalar moves from first to last, a
/// matrix keeps its columns.
pub fn rotation_to_attitude(r: &CanonicalRotation) -> (a: Attitude)
    ensures
        a == attitude_of(*r),
{
    match r {
        CanonicalRotation::Quat(q) => Attitude::Quat { x: q[1], y: q[2], z: q[3], w: q[0] },
        CanonicalRotation::Matrix(m) => Attitude::Matrix {
            x_axis: to_vec3(m[0]),
            y_axis: to_vec3(m[1]),
            z_axis: to_vec3(m[2]),
        },
    }
}

/// Nothing of a rotation is lost in its orientation: two rotations with one orientation have the
/// same form and the same numbers.
pub proof fn law_orientation_keeps_the_rotation(a: CanonicalRotation, b: CanonicalRotation)
    requires
        attitude_of(a) == attitude_of(b),
    ensures
        match (a, b) {
            (CanonicalRotation::Quat(p), CanonicalRotation::Quat(q)) => p@ == q@,
            (CanonicalRotation::Matrix(m), CanonicalRotation::Matrix(n)) => m[0]@ == n[0]@ && m[1]@
                == n[1]@ && m[2]@ == n[2]@,
            _ => false,
        },
{
    match (a, b) {
        (CanonicalRotation::Quat(p), CanonicalRotation::Quat(q)) => {
            assert(p@ =~= q@);
        },
        (CanonicalRotation::Matrix(m), CanonicalRotation::Matrix(n)) => {
            lemma_same_column(m[0], n[0]);
            lemma_same_column(m[1], n[1]);
            lemma_same_column(m[2], n[2]);
        },
        _ => {},
    }
}

/// Columns that make one vector have the same numbers.
proof fn lemma_same_column(a: [Binary64; 3], b: [Binary64; 3])
    requires
        vec3(a) == vec3(b),
    ensures
        a@ == b@,
{
    assert(a@ =~= b@);
}

/// The state that a translation and a rotation describe.
pub open spec fn state_of(trans: TransRecord, rotation: CanonicalRotation) -> BodyState {
    BodyState {
        position: vec3(trans.position),
        velocity: vec3(trans.velocity),
        attitude: attitude_of(rotation),
    }
}

/// The state that a translation and a rotation describe.
pub(crate) fn body_state(trans: &TransRecord, rotation: &CanonicalRotation) -> (r: BodyState)
    ensures
        r == state_of(*trans, *rotation),
{
    BodyState {
        position: to_vec3(trans.position),
        velocity: to_vec3(trans.velocity),
        attitude: rotation_to_attitude(rotation),
    }
}

/// The frame record of a row under a table of identities.
pub open spec fn row_record(rec: FrameRecord, uids: Seq<FrameKey>, row: FrameRow, epoch: Epoch) -> bool {
    &&& rec.uid@ == uids[row.uid_index as int]
    &&& match (rec.parent, row.parent) {
        (Some(a), Some(b)) => a@ == uids[b as int],
        (None, None) => true,
        _ => false,
    }
    &&& rec.epoch == Some(epoch)
    &&& rec.state == state_of(row.trans, row.rotation)
}

/// The frames are exactly those of the rows.
pub open spec fn frames_of(
    frames: Map<FrameKey, Arc<FrameRecord>>,
    uids: Seq<FrameKey>,
    rows: Seq<FrameRow>,
    epoch: Epoch,
) -> bool {
    &&& forall|i: int|
        0 <= i < rows.len() ==> {
            let uid = uids[(#[trigger] rows[i]).uid_index as int];
            frames.contains_key(uid) && row_record(*frames[uid], uids, rows[i], epoch)
        }
    &&& forall|uid: FrameKey| #[trigger]
        frames.contains_key(uid) ==> exists|i: int|
            0 <= i < rows.len() && uids[(#[trigger] rows[i]).uid_index as int] == uid
}

/// Stage every row onto an open transaction, resolving indices into identities.
pub(crate) fn stage_records(tx: &mut Transaction, uids: &Vec<FrameUid>, rows: &Vec<FrameRow>)
    requires
        old(tx).wf(),
        old(tx).staged().frames == Map::<FrameKey, Arc<FrameRecord>>::empty(),
        old(tx).staged().epoch is Some,
        unique(crate::frames::keys(uids@)),
        rows_fit(rows@, uids@.len() as int),
    ensures
        final(tx).wf(),
        final(tx).target() == old(tx).target(),
        final(tx).staged().epoch == old(tx).staged().epoch,
        final(tx).staged().objects == old(tx).staged().objects,
        frames_of(
            final(tx).staged().frames,
            crate::frames::keys(uids@),
            rows@,
            old(tx).staged().epoch->0,
        ),
{
    let ghost keys = crate::frames::keys(uids@);
    let ghost epoch = tx.staged().epoch->0;
    let mut n: usize = 0;
    assert(rows@.take(0) =~= Seq::empty());
    while n < rows.len()
        invariant
            n <= rows@.len(),
            tx.wf(),
            keys == crate::frames::keys(uids@),
            unique(keys),
            rows_fit(rows@, uids@.len() as int),
            tx.target() == old(tx).target(),
            tx.staged().epoch == Some(epoch),
            tx.staged().epoch == old(tx).staged().epoch,
            tx.staged().objects == old(tx).staged().objects,
            frames_of(tx.staged().frames, keys, rows@.take(n as int), epoch),
        decreases rows@.len() - n,
    {
        let row: FrameRow = rows[n];
        let uid: FrameUid = uids[row.uid_index as usize].clone();
        let parent: Option<FrameUid> = match row.parent {
            Some(p) => Some(uids[p as usize].clone()),
            None => None,
        };
        let ghost before = tx.staged().frames;
        let ghost key = uid@;
        assert(key == keys[row.uid_index as int]);
        assert(row.parent matches Some(p) ==> parent->0@ == keys[p as int]);
        tx.frame(uid, parent, body_state(&row.trans, &row.rotation));
        proof {
            let after = tx.staged().frames;
            let now = rows@.take(n + 1);
            assert(now =~= rows@.take(n as int).push(row));
            assert forall|i: int| 0 <= i < now.len() implies ({
                let u = keys[(#[trigger] now[i]).uid_index as int];
                after.contains_key(u) && row_record(*after[u], keys, now[i], epoch)
            }) by {
                if i < n {
                    assert(now[i] == rows@.take(n as int)[i]);
                    assert(rows@[i].uid_index != rows@[n as int].uid_index);
                    let (a, b) = (now[i].uid_index as int, row.uid_index as int);
                    assert(keys[a] != keys[b]) by {
                        if a < b {
                            assert(keys[a] != keys[b]);
                        } else {
                            assert(keys[b] != keys[a]);
                        }
                    }
                }
            }
            assert forall|u: FrameKey| #[trigger] after.contains_key(u) implies exists|i: int|
                0 <= i < now.len() && keys[(#[trigger] now[i]).uid_index as int] == u by {
                if u == key {
                    assert(keys[now[n as int].uid_index as int] == u);
                } else {
                    assert(before.contains_key(u));
                    let t = rows@.take(n as int);
                    let i = choose|i: int|
                        0 <= i < t.len() && keys[(#[trigger] t[i]).uid_index as int] == u;
                    assert(keys[now[i].uid_index as int] == u);
                }
            }
        }
        n = n + 1;
    }
    assert(rows@.take(n as int) =~= rows@);
}

/// Layer `target` holds exactly the frames of the rows, stamped with their time, and no objects.
pub open spec fn layer_of_frames(layer: LayerModel, uids: Seq<FrameKey>, rows: Seq<FrameRow>) -> bool {
    &&& layer.epoch matches Some(e) && e.secs() == rows_epoch(rows) && frames_of(
        layer.frames,
        uids,
        rows,
        e,
    )
    &&& layer.objects == Map::<Seq<char>, Arc<SceneObject>>::empty()
}

/// All numbers of a vector are finite.
pub open spec fn vector_is_finite(v: Vec3) -> bool {
    crate::binary64::finite(v.x) && crate::binary64::finite(v.y) && crate::binary64::finite(v.z)
}

/// All numbers of a state are finite.
pub open spec fn state_is_finite(s: BodyState) -> bool {
    &&& vector_is_finite(s.position) && vector_is_finite(s.velocity)
    &&& match s.attitude {
        Attitude::Quat { x, y, z, w } => crate::binary64::finite(x) && crate::binary64::finite(y)
            && crate::binary64::finite(z) && crate::binary64::finite(w),
        Attitude::Matrix { x_axis, y_axis, z_axis } => vector_is_finite(x_axis) && vector_is_finite(
            y_axis,
        ) && vector_is_finite(z_axis),
    }
}

/// The time of a layer and the state of everything in it are finite.
pub open spec fn layer_is_finite(layer: LayerModel) -> bool {
    &&& layer.epoch matches Some(e) ==> crate::binary64::finite(e.secs())
    &&& forall|uid: FrameKey| #[trigger]
        layer.frames.contains_key(uid) ==> state_is_finite(layer.frames[uid].state)
    &&& forall|id: Seq<char>| #[trigger]
        layer.objects.contains_key(id) ==> state_is_finite(layer.objects[id].state)
}

/// Finite rows give finite frames.
pub(crate) proof fn lemma_frames_are_finite(
    frames: Map<FrameKey, Arc<FrameRecord>>,
    uids: Seq<FrameKey>,
    rows: Seq<FrameRow>,
    epoch: Epoch,
)
    requires
        rows_finite(rows),
        frames_of(frames, uids, rows, epoch),
    ensures
        crate::binary64::finite(rows_epoch(rows)),
        forall|uid: FrameKey| #[trigger]
            frames.contains_key(uid) ==> state_is_finite(frames[uid].state),
{
    assert(rows.len() > 0 ==> row_is_finite(rows[0]));
    assert forall|uid: FrameKey| #[trigger] frames.contains_key(uid) implies state_is_finite(
        frames[uid].state,
    ) by {
        let i = choose|i: int|
            0 <= i < rows.len() && uids[(#[trigger] rows[i]).uid_index as int] == uid;
        assert(row_is_finite(rows[i]));
    }
}

/// The error names the first row whose parent is missing.
pub open spec fn dangling_error(e: ApplyError, uids: Seq<FrameKey>, rows: Seq<FrameRow>) -> bool {
    e matches ApplyError::DanglingParent { child, parent } && exists|i: int| #[trigger]
        first_dangling(rows, i) && child@ == uids[rows[i].uid_index as int] && parent@
            == uids[rows[i].parent->0 as int]
}

/// What comes of applying frames that passed validation: where every parent is provided, the
/// writer's layer holds exactly these frames; otherwise the first missing parent is named and
/// the scene is as it was.
pub open spec fn frames_applied(
    r: Result<(), ApplyError>,
    before: SceneStore,
    after: SceneStore,
    target: Seq<char>,
    uids: Seq<FrameKey>,
    rows: Seq<FrameRow>,
) -> bool {
    match r {
        Ok(()) => {
            &&& parents_provided(rows)
            &&& after@.contains_key(target) && after@ == before@.insert(target, after@[target])
            &&& layer_of_frames(after@[target], uids, rows)
        },
        Err(e) => {
            &&& !parents_provided(rows)
            &&& dangling_error(e, uids, rows)
            &&& after == before
        },
    }
}

/// Apply frames that passed validation as one transaction.
pub fn apply_frames(
    uids: &Vec<FrameUid>,
    rows: &Vec<FrameRow>,
    w: &SceneWriter,
    store: &mut SceneStore,
) -> (r: Result<(), ApplyError>)
    requires
        old(store).wf(),
        unique(crate::frames::keys(uids@)),
        rows_fit(rows@, uids@.len() as int),
    ensures
        final(store).wf(),
        frames_applied(
            r,
            *old(store),
            *final(store),
            w.target()@,
            crate::frames::keys(uids@),
            rows@,
        ),
{
    match check_parents(uids, rows) {
        Ok(()) => {},
        Err(e) => {
            return Err(e);
        },
    }
    let mut tx: Transaction = w.begin(tx_epoch(rows));
    stage_records(&mut tx, uids, rows);
    tx.commit(store);
    Ok(())
}

/// Apply a document onto the writer's layer. The document is validated before any of it is
/// interpreted, and all its frames are committed as one transaction; a rejected document leaves
/// the scene as it was.
pub fn apply_document(doc: &FrameDocument, w: &SceneWriter, store: &mut SceneStore) -> (r: Result<
    (),
    ApplyError,
>)
    requires
        old(store).wf(),
    ensures
        final(store).wf(),
        document_verdict(*doc) matches Err(e) ==> r == Err::<(), ApplyError>(ApplyError::Invalid(e))
            && *final(store) == *old(store),
        document_accepted(*doc) ==> frames_applied(
            r,
            *old(store),
            *final(store),
            w.target()@,
            document_uids(*doc),
            document_rows(*doc),
        ),
        r is Ok ==> layer_is_finite(final(store)@[w.target()@]),
{
    match validate_document(doc) {
        Ok(()) => {},
        Err(e) => {
            return Err(ApplyError::Invalid(e));
        },
    }
    let uids: Vec<FrameUid> = document_uid_list(doc);
    let rows: Vec<FrameRow> = document_row_list(doc);
    assert(crate::frames::keys(uids@).len() == uids@.len());
    let r: Result<(), ApplyError> = apply_frames(&uids, &rows, w, store);
    proof {
        if r is Ok {
            let layer = store@[w.target()@];
            lemma_frames_are_finite(layer.frames, document_uids(*doc), rows@, layer.epoch->0);
        }
    }
    r
}

/// Epoch `(s, e)` exists in the segments.
pub open spec fn has_epoch(segments: Seq<SegmentModel>, s: int, e: int) -> bool {
    0 <= s < segments.len() && 0 <= e < segments[s].epochs.len()
}

/// Apply one epoch of a series onto the writer's layer.
pub fn apply_series_epoch(
    series: &FrameSeries,
    segment: usize,
    epoch: usize,
    w: &SceneWriter,
    store: &mut SceneStore,
) -> (r: Result<(), ApplyError>)
    requires
        old(store).wf(),
    ensures
        final(store).wf(),
        series_verdict(*series) matches Err(e) ==> r == Err::<(), ApplyError>(
            ApplyError::Invalid(e),
        ) && *final(store) == *old(store),
        series_accepted(*series) && !has_epoch(
            series_segments(*series),
            segment as int,
            epoch as int,
        ) ==> r is Err && r->Err_0 is NoSuchEpoch && *final(store) == *old(store),
        series_accepted(*series) && has_epoch(
            series_segments(*series),
            segment as int,
            epoch as int,
        ) ==> frames_applied(
            r,
            *old(store),
            *final(store),
            w.target()@,
            series_uids(*series),
            series_segments(*series)[segment as int].epochs[epoch as int].rows,
        ),
        r is Ok ==> layer_is_finite(final(store)@[w.target()@]),
{
    match validate_series(series) {
        Ok(()) => {},
        Err(e) => {
            return Err(ApplyError::Invalid(e));
        },
    }
    if segment >= segment_count(series) || epoch >= epoch_count(series, segment) {
        return Err(ApplyError::NoSuchEpoch);
    }
    proof {
        let ghost_segment = series_segments(*series)[segment as int];
        assert(epoch_fits(
            ghost_segment.epochs[epoch as int],
            series_uids(*series).len() as int,
        ));
    }
    let uids: Vec<FrameUid> = series_uid_list(series);
    let rows: Vec<FrameRow> = series_row_list(series, segment, epoch);
    assert(crate::frames::keys(uids@).len() == uids@.len());
    let r: Result<(), ApplyError> = apply_frames(&uids, &rows, w, store);
    proof {
        if r is Ok {
            let layer = store@[w.target()@];
            lemma_frames_are_finite(layer.frames, series_uids(*series), rows@, layer.epoch->0);
        }
    }
    r
}

/// A producer that publishes a document's frames.
pub struct DocumentProducer {
    /// The document to apply; it is validated on every application.
    pub doc: FrameDocument,
}

impl DocumentProducer {
    /// Apply the document, handing on the outcome.
    pub fn try_populate(&self, w: &SceneWriter, store: &mut SceneStore) -> (r: Result<
        (),
        ApplyError,
    >)
        requires
            old(store).wf(),
        ensures
            final(store).wf(),
            document_verdict(self.doc) matches Err(e) ==> r == Err::<(), ApplyError>(
                ApplyError::Invalid(e),
            ) && *final(store) == *old(store),
            document_accepted(self.doc) ==> frames_applied(
                r,
                *old(store),
                *final(store),
                w.target()@,
                document_uids(self.doc),
                document_rows(self.doc),
            ),
            r is Ok ==> layer_is_finite(final(store)@[w.target()@]),
    {
        apply_document(&self.doc, w, store)
    }
}

/// Where every identity has a row, every parent is provided: no epoch of an accepted series can
/// have a dangling parent.
pub proof fn law_complete_rows_provide_every_parent(rows: Seq<FrameRow>, len: int)
    requires
        rows_fit(rows, len),
        rows.len() == len,
    ensures
        parents_provided(rows),
{
    let indices = Seq::new(rows.len(), |i: int| rows[i].uid_index as int);
    assert(indices.no_duplicates()) by {
        assert forall|i: int, j: int|
            0 <= i < indices.len() && 0 <= j < indices.len() && i != j implies indices[i]
            != indices[j] by {
            if i < j {
                assert(rows[i].uid_index != rows[j].uid_index);
            } else {
                assert(rows[j].uid_index != rows[i].uid_index);
            }
        }
    }
    indices.unique_seq_to_set();
    assert forall|i: int| 0 <= i < rows.len() implies !dangles(rows, i) by {
        if dangles(rows, i) {
            let p = rows[i].parent->0 as int;
            assert(p < len);
            let range = vstd::set_lib::set_int_range(0, len);
            vstd::set_lib::lemma_int_range(0, len);
            let others = range.remove(p);
            assert(indices.to_set().subset_of(others)) by {
                assert forall|x: int| indices.to_set().contains(x) implies others.contains(x) by {
                    let k = choose|k: int| 0 <= k < indices.len() && indices[k] == x;
                    assert(rows[k].uid_index == x);
                }
            }
            vstd::set_lib::lemma_len_subset(indices.to_set(), others);
        }
    }
}

/// Nothing of a translation or a quaternion is lost or moved in the state: position and velocity
/// have their own three numbers each, in order, and the quaternion's scalar comes last.
pub proof fn law_state_keeps_every_number(trans: TransRecord, rotation: CanonicalRotation)
    ensures
        ({
            let state = state_of(trans, rotation);
            &&& state.position.x == trans.position[0]
            &&& state.position.y == trans.position[1]
            &&& state.position.z == trans.position[2]
            &&& state.velocity.x == trans.velocity[0]
            &&& state.velocity.y == trans.velocity[1]
            &&& state.velocity.z == trans.velocity[2]
            &&& rotation matches CanonicalRotation::Quat(q) ==> (
            state.attitude matches Attitude::Quat { x, y, z, w } && w == q[0] && x == q[1] && y
                == q[2] && z == q[3])
            &&& rotation matches CanonicalRotation::Matrix(m) ==> (
            state.attitude matches Attitude::Matrix { x_axis, y_axis, z_axis } && x_axis.x
                == m[0][0] && x_axis.y == m[0][1] && x_axis.z == m[0][2] && y_axis.x == m[1][0]
                && y_axis.y == m[1][1] && y_axis.z == m[1][2] && z_axis.x == m[2][0] && z_axis.y
                == m[2][1] && z_axis.z == m[2][2])
        }),
{
}

/// Two translations with one state have the same position and the same velocity.
pub proof fn law_states_tell_translations_apart(
    a: TransRecord,
    b: TransRecord,
    p: CanonicalRotation,
    q: CanonicalRotation,
)
    requires
        state_of(a, p) == state_of(b, q),
    ensures
        a.position@ == b.position@,
        a.velocity@ == b.velocity@,
{
    law_state_keeps_every_number(a, p);
    law_state_keeps_every_number(b, q);
    assert(a.position@ =~= b.position@);
    assert(a.velocity@ =~= b.velocity@);
}

/// Every row's frame is there under its identity, with the parent, the position and the velocity
/// that the row says, all at one time; and no other frame is.
pub proof fn law_frames_are_placed_as_recorded(
    frames: Map<FrameKey, Arc<FrameRecord>>,
    uids: Seq<FrameKey>,
    rows: Seq<FrameRow>,
    epoch: Epoch,
    i: int,
)
    requires
        frames_of(frames, uids, rows, epoch),
        0 <= i < rows.len(),
    ensures
        ({
            let uid = uids[rows[i].uid_index as int];
            let f = frames[uid];
            &&& frames.contains_key(uid)
            &&& f.uid@ == uid
            &&& f.parent is Some <==> rows[i].parent is Some
            &&& f.parent is Some ==> f.parent->0@ == uids[rows[i].parent->0 as int]
            &&& f.epoch == Some(epoch)
            &&& f.state.position.x == rows[i].trans.position[0]
            &&& f.state.position.y == rows[i].trans.position[1]
            &&& f.state.position.z == rows[i].trans.position[2]
            &&& f.state.velocity.x == rows[i].trans.velocity[0]
            &&& f.state.velocity.y == rows[i].trans.velocity[1]
            &&& f.state.velocity.z == rows[i].trans.velocity[2]
            &&& f.state.attitude == attitude_of(rows[i].rotation)
        }),
        forall|uid: FrameKey| #[trigger]
            frames.contains_key(uid) ==> exists|j: int|
                0 <= j < rows.len() && uids[(#[trigger] rows[j]).uid_index as int] == uid,
{
    law_state_keeps_every_number(rows[i].trans, rows[i].rotation);
    assert(frames.contains_key(uids[rows[i].uid_index as int]));
}

/// A layer of frames is stamped with the first row's time, or zero where that has none, and has no
/// objects.
pub proof fn law_layers_have_the_first_rows_time(
    layer: LayerModel,
    uids: Seq<FrameKey>,
    rows: Seq<FrameRow>,
)
    requires
        layer_of_frames(layer, uids, rows),
    ensures
        layer.epoch is Some,
        rows.len() > 0 && rows[0].epoch is Some ==> layer.epoch->0.secs() == rows[0].epoch->0,
        rows.len() == 0 || rows[0].epoch is None ==> crate::binary64::scaled(layer.epoch->0.secs())
            == 0,
        forall|id: Seq<char>| !#[trigger] layer.objects.contains_key(id),
        frames_of(layer.frames, uids, rows, layer.epoch->0),
{
    crate::binary64::lemma_one();
}

/// Some row is that of the identity at place `p` of the table.
pub open spec fn has_row(rows: Seq<FrameRow>, p: u32) -> bool {
    exists|j: int| 0 <= j < rows.len() && (#[trigger] rows[j]).uid_index == p
}

/// Frames are applied exactly when every parent that a row names has a row. Then only the
/// writer's layer changes. Otherwise nothing does, and the failure names the first row whose
/// parent has none, with that parent.
pub proof fn law_frames_are_applied_whole_or_not_at_all(
    r: Result<(), ApplyError>,
    before: SceneStore,
    after: SceneStore,
    target: Seq<char>,
    uids: Seq<FrameKey>,
    rows: Seq<FrameRow>,
)
    requires
        frames_applied(r, before, after, target, uids, rows),
    ensures
        r is Ok <==> forall|i: int|
            0 <= i < rows.len() && (#[trigger] rows[i]).parent is Some ==> has_row(
                rows,
                rows[i].parent->0,
            ),
        r is Ok ==> after@.contains_key(target) && layer_of_frames(after@[target], uids, rows),
        r is Ok ==> forall|l: Seq<char>|
            l != target ==> (#[trigger] after@.contains_key(l) <==> before@.contains_key(l)) && (
            before@.contains_key(l) ==> after@[l] == before@[l]),
        r is Err ==> after == before,
        r is Err ==> exists|i: int|
            0 <= i < rows.len() && (#[trigger] rows[i]).parent is Some && !has_row(
                rows,
                rows[i].parent->0,
            ) && (r->Err_0 matches ApplyError::DanglingParent { child, parent } && child@
                == uids[rows[i].uid_index as int] && parent@ == uids[rows[i].parent->0 as int]) && (
            forall|j: int|
                0 <= j < i && (#[trigger] rows[j]).parent is Some ==> has_row(
                    rows,
                    rows[j].parent->0,
                )),
{
    assert forall|i: int| 0 <= i < rows.len() implies (dangles(rows, i) <==> (
    #[trigger] rows[i]).parent is Some && !has_row(rows, rows[i].parent->0)) by {
        if rows[i].parent is Some {
            let p = rows[i].parent->0;
            assert(provided(rows, p) <==> has_row(rows, p));
        }
    }
    if r is Err {
        let i = choose|i: int| #[trigger]
            first_dangling(rows, i) && (r->Err_0 matches ApplyError::DanglingParent {
                child,
                parent,
            } && child@ == uids[rows[i].uid_index as int] && parent@
                == uids[rows[i].parent->0 as int]);
        assert(first_dangling(rows, i));
        assert(dangles(rows, i));
        assert(rows[i].parent is Some);
        assert forall|j: int| 0 <= j < i && (#[trigger] rows[j]).parent is Some implies has_row(
            rows,
            rows[j].parent->0,
        ) by {
            assert(!dangles(rows, j));
        }
    } else {
        assert forall|i: int| 0 <= i < rows.len() && (#[trigger] rows[i]).parent is Some implies
            has_row(rows, rows[i].parent->0) by {
            assert(!dangles(rows, i));
        }
        assert(after@ == before@.insert(target, after@[target]));
    }
}

/// In a finite layer every number of every state is finite.
pub proof fn law_finite_layers_have_finite_states(layer: LayerModel, uid: FrameKey, id: Seq<char>)
    requires
        layer_is_finite(layer),
    ensures
        layer.frames.contains_key(uid) ==> {
            let s = layer.frames[uid].state;
            &&& crate::binary64::finite(s.position.x) && crate::binary64::finite(s.position.y)
                && crate::binary64::finite(s.position.z)
            &&& crate::binary64::finite(s.velocity.x) && crate::binary64::finite(s.velocity.y)
                && crate::binary64::finite(s.velocity.z)
        },
        layer.objects.contains_key(id) ==> {
            let s = layer.objects[id].state;
            &&& crate::binary64::finite(s.position.x) && crate::binary64::finite(s.position.y)
                && crate::binary64::finite(s.position.z)
            &&& crate::binary64::finite(s.velocity.x) && crate::binary64::finite(s.velocity.y)
                && crate::binary64::finite(s.velocity.z)
            &&& s.attitude matches Attitude::Quat { x, y, z, w } ==> crate::binary64::finite(x)
                && crate::binary64::finite(y) && crate::binary64::finite(z)
                && crate::binary64::finite(w)
        },
        layer.epoch is Some ==> crate::binary64::finite(layer.epoch->0.secs()),
{
}

} // verus!
