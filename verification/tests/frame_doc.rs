//! Applying frame documents and series: the keyframe handshake and what is placed.

use astrodyn_frame_doc::{
    CanonicalRotation, Conventions, DocHeader, FrameDocument, FrameRecord, FrameSeries, Origin,
    SeriesBuilder, TransRecord, SCHEMA_VERSION,
};
use astrodyn_quantities as quantities;
use astrodyn_quantities::{Mars, Moon, PlanetFixed, RootInertial};
use astrotui::binary64::Binary64;
use astrotui::frame_doc as plain;
use astrotui::frame_doc::{
    apply_document, apply_frames, apply_series_epoch, check_parents, document_row_list,
    document_uid_list, placed_frames, rotation_to_attitude, series_row_list, series_uid_list,
    tx_epoch, ApplyError, DocumentProducer, FrameRow,
};
use astrotui::ident::{FrameClass, FrameRole, FrameUid};
use astrotui::producer::Producer;
use astrotui::scene::{Attitude, SceneStore, Vec3};
use glam::{DMat3, DQuat, DVec3};

fn num(x: f64) -> Binary64 {
    Binary64::from_bits(x.to_bits())
}

fn float(b: Binary64) -> f64 {
    f64::from_bits(b.to_bits())
}

fn vec3(x: f64, y: f64, z: f64) -> Vec3 {
    Vec3 { x: num(x), y: num(y), z: num(z) }
}

fn dvec3(v: Vec3) -> DVec3 {
    DVec3::new(float(v.x), float(v.y), float(v.z))
}

fn dquat(a: Attitude) -> DQuat {
    match a {
        Attitude::Quat { x, y, z, w } => DQuat::from_xyzw(float(x), float(y), float(z), float(w)),
        Attitude::Matrix { x_axis, y_axis, z_axis } => DQuat::from_mat3(&DMat3::from_cols(
            dvec3(x_axis),
            dvec3(y_axis),
            dvec3(z_axis),
        )),
    }
}

fn header() -> DocHeader {
    DocHeader {
        schema_version: SCHEMA_VERSION,
        conventions: Conventions::current(),
        simtime: 0.0,
        tai_tjt_at_epoch: 0.0,
    }
}

fn root_uid() -> quantities::FrameUid {
    quantities::FrameUid::of::<RootInertial>()
}

fn child_uid() -> quantities::FrameUid {
    quantities::FrameUid::of::<PlanetFixed<Moon>>()
}

// The same identities as the library holds them.
fn root() -> FrameUid {
    FrameUid {
        namespace: 0,
        class: FrameClass::RootInertial,
        role: FrameRole::Primary,
        tag: None,
    }
}

fn child() -> FrameUid {
    FrameUid {
        namespace: 0,
        class: FrameClass::PlanetFixed,
        role: FrameRole::Primary,
        tag: Some("Moon".to_string()),
    }
}

fn rec(
    name: &str,
    uid_index: u32,
    parent: Option<u32>,
    epoch: f64,
    position: [f64; 3],
    rotation: CanonicalRotation,
) -> FrameRecord {
    FrameRecord {
        name: name.into(),
        uid_index,
        parent,
        epoch: Some(epoch),
        trans: TransRecord { position, velocity: [0.0; 3] },
        rotation,
        ang_vel_this: [0.0; 3],
        origin: Origin::Injected,
    }
}

fn ident() -> CanonicalRotation {
    CanonicalRotation::Quat([1.0, 0.0, 0.0, 0.0])
}

// root (RootInertial) + a child (PlanetFixed<Moon>) at +x with a non-identity rotation.
fn two_frame_doc() -> FrameDocument {
    FrameDocument {
        header: header(),
        uids: vec![root_uid(), child_uid()],
        records: vec![
            rec("root", 0, None, 100.0, [0.0; 3], ident()),
            // scalar-first [0,1,0,0] is (x=1,y=0,z=0,w=0)
            rec(
                "moon_fixed",
                1,
                Some(0),
                100.0,
                [1.0, 2.0, 3.0],
                CanonicalRotation::Quat([0.0, 1.0, 0.0, 0.0]),
            ),
        ],
    }
}

fn apply(doc: &FrameDocument) -> (SceneStore, Result<(), ApplyError>) {
    let mut store = SceneStore::new();
    let w = store.writer("wire".into());
    let r = apply_document(doc, &w, &mut store);
    (store, r)
}

#[test]
fn applies_root_and_rotating_child() {
    let (store, r) = apply(&two_frame_doc());
    r.unwrap();
    let snap = store.snapshot();
    assert_eq!(snap.frames().len(), 2);

    let c = snap.frames().iter().find(|f| f.uid == child()).expect("child frame present");
    assert_eq!(c.parent, Some(root()));
    assert_eq!(c.state.position, vec3(1.0, 2.0, 3.0));
    // scalar-first [0,1,0,0] -> xyzw (1,0,0,0)
    assert!(dquat(c.state.attitude).abs_diff_eq(DQuat::from_xyzw(1.0, 0.0, 0.0, 0.0), 1e-12));
}

#[test]
fn places_frames_not_objects() {
    let (store, r) = apply(&two_frame_doc());
    r.unwrap();
    let snap = store.snapshot();
    assert!(snap.objects().is_empty(), "frame_doc carries no objects");
    assert!(!snap.frames().is_empty());
}

#[test]
fn matrix_rotation_converts() {
    // A known quaternion through its column-major matrix and back (up to the double cover).
    let original = DQuat::from_rotation_z(0.7);
    let m = DMat3::from_quat(original);
    let cols = [m.x_axis, m.y_axis, m.z_axis].map(|c| c.to_array().map(num));
    let got = dquat(rotation_to_attitude(&plain::CanonicalRotation::Matrix(cols)));
    assert!(
        got.abs_diff_eq(original, 1e-12) || got.abs_diff_eq(-original, 1e-12),
        "matrix->quat mismatch: {got:?} vs {original:?}"
    );
}

#[test]
fn json_round_trip_then_apply() {
    let json = two_frame_doc().to_json_string();
    let back = FrameDocument::from_json_str(&json).expect("valid json");
    let (store, r) = apply(&back);
    r.unwrap();
    let snap = store.snapshot();
    assert_eq!(snap.frames().len(), 2);
    let c = snap.frames().iter().find(|f| f.uid == child()).unwrap();
    assert_eq!(c.state.position, vec3(1.0, 2.0, 3.0));
}

#[test]
fn handshake_rejects_bad_schema() {
    let mut doc = two_frame_doc();
    doc.header.schema_version = 999;
    let (store, r) = apply(&doc);
    let err = r.unwrap_err();
    assert!(matches!(err, ApplyError::Invalid(_)));
    assert!(store.snapshot().is_empty(), "nothing committed on bad header");
    // The message hands on what the document says of itself.
    let why = doc.validate().unwrap_err().to_string();
    assert_eq!(err.message(), format!("invalid frame document (keyframe handshake): {why}"));
}

#[test]
fn handshake_rejects_bad_conventions() {
    let mut doc = two_frame_doc();
    doc.header.conventions.time_scale = "wrong scale".into();
    let (store, r) = apply(&doc);
    assert!(matches!(r.unwrap_err(), ApplyError::Invalid(_)));
    assert!(store.snapshot().is_empty());
}

// A record names a parent that no record provides, though its index is in range.
fn dangling_doc() -> FrameDocument {
    FrameDocument {
        header: header(),
        uids: vec![root_uid(), child_uid(), quantities::FrameUid::of::<PlanetFixed<Mars>>()],
        records: vec![
            rec("root", 0, None, 0.0, [0.0; 3], ident()),
            // parent index 2 = Mars, but no record has uid_index 2.
            rec("moon", 1, Some(2), 0.0, [0.0; 3], ident()),
        ],
    }
}

#[test]
fn rejects_dangling_parent() {
    let doc = dangling_doc();
    doc.validate().expect("astrodyn validate passes: parent index is in range");
    let (store, r) = apply(&doc);
    assert!(matches!(r.unwrap_err(), ApplyError::DanglingParent { .. }));
    assert!(store.snapshot().is_empty(), "nothing committed on dangling parent");
}

#[test]
fn a_dangling_parent_is_named_with_its_child() {
    let (_store, r) = apply(&dangling_doc());
    let err = r.unwrap_err();
    match &err {
        ApplyError::DanglingParent { child: c, parent } => {
            assert_eq!(*c, child());
            assert_eq!(parent.tag.as_deref(), Some("Mars"));
        }
        other => panic!("unexpected {other:?}"),
    }
    let mars = quantities::FrameUid::of::<PlanetFixed<Mars>>();
    assert_eq!(
        err.message(),
        format!("frame {} names parent {}, which has no record", child_uid(), mars)
    );
}

#[test]
fn epoch_from_first_record() {
    let (store, r) = apply(&two_frame_doc());
    r.unwrap();
    let secs = store.snapshot().epoch(&"wire".into()).map(|e| float(e.as_seconds()));
    assert_eq!(secs, Some(100.0));
}

fn two_epoch_series() -> FrameSeries {
    let mut b = SeriesBuilder::new(header(), vec![root_uid(), child_uid()]);
    let row = |t: f64, x: f64| -> Vec<FrameRecord> {
        vec![
            rec("root", 0, None, t, [0.0; 3], ident()),
            rec("moon_fixed", 1, Some(0), t, [x, 0.0, 0.0], ident()),
        ]
    };
    b.push_epoch(0.0, row(0.0, 1.0));
    b.push_epoch(1.0, row(1.0, 2.0));
    b.finish()
}

#[test]
fn apply_series_epoch_applies_one_row() {
    let series = two_epoch_series();
    let mut store = SceneStore::new();
    let w = store.writer("wire".into());
    apply_series_epoch(&series, 0, 1, &w, &mut store).unwrap();
    let snap = store.snapshot();
    let c = snap.frames().iter().find(|f| f.uid == child()).unwrap();
    assert_eq!(c.state.position, vec3(2.0, 0.0, 0.0)); // epoch index 1

    // An epoch out of range is reported, and nothing changes.
    let mut empty = SceneStore::new();
    let err = apply_series_epoch(&series, 0, 9, &w, &mut empty).unwrap_err();
    assert!(matches!(err, ApplyError::NoSuchEpoch));
    assert_eq!(err.message(), "series segment/epoch index out of range");
    let err = apply_series_epoch(&series, 1, 0, &w, &mut empty).unwrap_err();
    assert!(matches!(err, ApplyError::NoSuchEpoch));
    assert!(empty.snapshot().is_empty());
}

#[test]
fn a_bad_series_is_refused_before_its_index() {
    let mut series = two_epoch_series();
    series.header.schema_version = 999;
    let mut store = SceneStore::new();
    let w = store.writer("wire".into());
    let err = apply_series_epoch(&series, 7, 7, &w, &mut store).unwrap_err();
    assert!(matches!(err, ApplyError::Invalid(_)));
    assert!(store.snapshot().is_empty());
}

#[test]
fn document_producer_populates() {
    let mut store = SceneStore::new();
    let w = store.writer("wire".into());
    DocumentProducer { doc: two_frame_doc() }.populate(&w, &mut store);
    assert_eq!(store.snapshot().frames().len(), 2);
}

#[test]
fn a_producer_hands_on_a_refusal() {
    let mut store = SceneStore::new();
    let w = store.writer("wire".into());
    DocumentProducer { doc: two_frame_doc() }.try_populate(&w, &mut store).unwrap();
    let err = DocumentProducer { doc: dangling_doc() }.try_populate(&w, &mut store).unwrap_err();
    assert!(matches!(err, ApplyError::DanglingParent { .. }));
    // What was there before stays.
    assert_eq!(store.snapshot().frames().len(), 2);
}

#[test]
fn a_document_is_read_field_by_field() {
    let mut doc = two_frame_doc();
    doc.records[1].trans.velocity = [4.0, 5.0, 6.0];
    doc.records[1].epoch = None;
    doc.uids.push(quantities::FrameUid {
        namespace: quantities::Namespace(3),
        class: quantities::FrameClass::External,
        role: quantities::FrameRole::Custom("dock".to_string().into()),
        tag: quantities::Tag::Named("arm".to_string().into()),
    });
    let uids = document_uid_list(&doc);
    assert_eq!(uids.len(), 3);
    assert_eq!(uids[0], root());
    assert_eq!(uids[1], child());
    assert_eq!(
        uids[2],
        FrameUid {
            namespace: 3,
            class: FrameClass::External,
            role: FrameRole::Custom("dock".to_string()),
            tag: Some("arm".to_string()),
        }
    );
    // The display name is the one that the identity has outside.
    for (ours, theirs) in uids.iter().zip(&doc.uids) {
        assert_eq!(ours.label(), theirs.to_string());
    }
    let rows = document_row_list(&doc);
    assert_eq!(rows.len(), 2);
    assert_eq!((rows[0].uid_index, rows[0].parent), (0, None));
    assert_eq!((rows[1].uid_index, rows[1].parent), (1, Some(0)));
    assert_eq!(rows[0].epoch, Some(num(100.0)));
    assert_eq!(rows[1].epoch, None);
    assert_eq!(rows[1].trans.position, [1.0, 2.0, 3.0].map(num));
    assert_eq!(rows[1].trans.velocity, [4.0, 5.0, 6.0].map(num));
    assert_eq!(
        rows[1].rotation,
        plain::CanonicalRotation::Quat([0.0, 1.0, 0.0, 0.0].map(num))
    );
}

#[test]
fn every_role_and_class_is_read() {
    let classes = [
        (quantities::FrameClass::RootInertial, FrameClass::RootInertial, true),
        (quantities::FrameClass::PlanetInertial, FrameClass::PlanetInertial, true),
        (quantities::FrameClass::BarycenterInertial, FrameClass::BarycenterInertial, true),
        (quantities::FrameClass::PlanetFixed, FrameClass::PlanetFixed, false),
        (quantities::FrameClass::Topocentric, FrameClass::Topocentric, false),
        (quantities::FrameClass::Body, FrameClass::Body, false),
        (quantities::FrameClass::OrbitRelative, FrameClass::OrbitRelative, false),
        (quantities::FrameClass::External, FrameClass::External, false),
    ];
    let roles = [
        (quantities::FrameRole::Primary, FrameRole::Primary),
        (quantities::FrameRole::AltInertial, FrameRole::AltInertial),
        (quantities::FrameRole::AltPfix, FrameRole::AltPfix),
        (quantities::FrameRole::CoreBody, FrameRole::CoreBody),
        (quantities::FrameRole::CompositeBody, FrameRole::CompositeBody),
        (quantities::FrameRole::Structure, FrameRole::Structure),
        (quantities::FrameRole::VehiclePoint, FrameRole::VehiclePoint),
        (quantities::FrameRole::Lvlh, FrameRole::Lvlh),
        (quantities::FrameRole::Ned, FrameRole::Ned),
        (
            quantities::FrameRole::Custom("c".to_string().into()),
            FrameRole::Custom("c".to_string()),
        ),
    ];
    let mut doc = two_frame_doc();
    doc.records.clear();
    doc.uids.clear();
    let mut want = Vec::new();
    for (class, ours, may_root) in &classes {
        assert_eq!(ours.may_be_root(), *may_root);
        assert_eq!(class.may_be_root_or_integ(), *may_root);
        for (role, our_role) in &roles {
            doc.uids.push(quantities::FrameUid {
                namespace: quantities::Namespace(9),
                class: *class,
                role: role.clone(),
                tag: quantities::Tag::None,
            });
            want.push(FrameUid { namespace: 9, class: *ours, role: our_role.clone(), tag: None });
        }
    }
    let got = document_uid_list(&doc);
    assert_eq!(got, want);
    for (i, a) in got.iter().enumerate() {
        assert_eq!(a.label(), doc.uids[i].to_string());
        for (j, b) in got.iter().enumerate() {
            assert_eq!(a.same(b), i == j);
        }
    }
}

#[test]
fn a_series_is_read_row_by_row() {
    let series = two_epoch_series();
    assert_eq!(series_uid_list(&series), vec![root(), child()]);
    let rows = series_row_list(&series, 0, 1);
    assert_eq!(rows.len(), 2);
    assert_eq!(rows[1].trans.position, [2.0, 0.0, 0.0].map(num));
    assert_eq!(rows[1].epoch, Some(num(1.0)));
}

fn row(uid_index: u32, parent: Option<u32>, epoch: Option<f64>) -> FrameRow {
    FrameRow {
        uid_index,
        parent,
        epoch: epoch.map(num),
        trans: plain::TransRecord { position: [num(0.0); 3], velocity: [num(0.0); 3] },
        rotation: plain::CanonicalRotation::Quat([1.0, 0.0, 0.0, 0.0].map(num)),
    }
}

#[test]
fn the_epoch_is_that_of_the_first_record_or_zero() {
    assert_eq!(float(tx_epoch(&vec![]).as_seconds()), 0.0);
    assert_eq!(float(tx_epoch(&vec![row(0, None, None)]).as_seconds()), 0.0);
    let rows = vec![row(0, None, None), row(1, None, Some(5.0))];
    assert_eq!(float(tx_epoch(&rows).as_seconds()), 0.0);
    let rows = vec![row(0, None, Some(7.5)), row(1, None, Some(5.0))];
    assert_eq!(float(tx_epoch(&rows).as_seconds()), 7.5);
}

#[test]
fn placed_frames_mark_the_records() {
    let rows = vec![row(3, None, None), row(1, Some(3), None)];
    assert_eq!(placed_frames(5, &rows), [false, true, false, true, false]);
    // An index past the table marks nothing.
    assert_eq!(placed_frames(2, &rows), [false, true]);
    assert!(placed_frames(0, &rows).is_empty());
}

#[test]
fn parents_may_come_in_any_order_but_must_come() {
    let uids = vec![root(), child()];
    assert!(check_parents(&uids, &vec![row(1, Some(0), None), row(0, None, None)]).is_ok());
    // A frame may name itself here: placing it is another matter.
    assert!(check_parents(&uids, &vec![row(0, Some(0), None)]).is_ok());
    let err = check_parents(&uids, &vec![row(0, Some(1), None)]).unwrap_err();
    assert!(matches!(err, ApplyError::DanglingParent { child: c, parent }
        if c == root() && parent == child()));
}

#[test]
fn frames_are_applied_as_they_are_listed() {
    let mut store = SceneStore::new();
    let w = store.writer("wire".into());
    let uids = vec![root(), child()];
    let rows = vec![row(0, None, Some(3.0)), row(1, Some(0), Some(4.0))];
    apply_frames(&uids, &rows, &w, &mut store).unwrap();
    let snap = store.snapshot();
    assert_eq!(snap.frames().len(), 2);
    for f in snap.frames() {
        // One layer epoch: that of the first record.
        assert_eq!(f.epoch.map(|e| float(e.as_seconds())), Some(3.0));
    }
    // The same record list again leaves the same scene.
    apply_frames(&uids, &rows, &w, &mut store).unwrap();
    assert_eq!(store.snapshot().frames().len(), 2);
}

#[test]
fn complete_rows_always_provide_every_parent() {
    // Every identity has a record, so no parent can be missing, whatever it is.
    let uids = vec![root(), child()];
    for a in [None, Some(0), Some(1)] {
        for b in [None, Some(0), Some(1)] {
            assert!(check_parents(&uids, &vec![row(0, a, None), row(1, b, None)]).is_ok());
        }
    }
}

#[test]
fn display_names_are_spelled_by_namespace_tag_and_role() {
    let label = |namespace: u16, class: FrameClass, role: FrameRole, tag: Option<&str>| {
        FrameUid { namespace, class, role, tag: tag.map(str::to_string) }.label()
    };
    let primary = |class: FrameClass| label(0, class, FrameRole::Primary, None);
    assert_eq!(primary(FrameClass::RootInertial), "inertial");
    assert_eq!(primary(FrameClass::PlanetInertial), "inertial");
    assert_eq!(primary(FrameClass::BarycenterInertial), "inertial");
    assert_eq!(primary(FrameClass::PlanetFixed), "pfix");
    assert_eq!(primary(FrameClass::Topocentric), "topo");
    assert_eq!(primary(FrameClass::Body), "body");
    assert_eq!(primary(FrameClass::OrbitRelative), "orbit_relative");
    assert_eq!(primary(FrameClass::External), "external");
    let body = |role: FrameRole| label(0, FrameClass::Body, role, Some("Iss"));
    assert_eq!(body(FrameRole::AltInertial), "Iss.inertial.alt");
    assert_eq!(body(FrameRole::AltPfix), "Iss.pfix.alt");
    assert_eq!(body(FrameRole::CoreBody), "Iss.core_body");
    assert_eq!(body(FrameRole::CompositeBody), "Iss.composite_body");
    assert_eq!(body(FrameRole::Structure), "Iss.structural");
    assert_eq!(body(FrameRole::VehiclePoint), "Iss.point");
    assert_eq!(body(FrameRole::Lvlh), "Iss.lvlh");
    assert_eq!(body(FrameRole::Ned), "Iss.ned");
    assert_eq!(body(FrameRole::Custom("dock".to_string())), "Iss.dock");
    let far = |namespace: u16| label(namespace, FrameClass::PlanetFixed, FrameRole::Primary, Some("M"));
    assert_eq!(far(0), "M.pfix");
    assert_eq!(far(7), "ns7:M.pfix");
    assert_eq!(far(65535), "ns65535:M.pfix");
}

#[test]
fn a_quaternion_moves_its_scalar_and_keeps_its_numbers() {
    let q = plain::CanonicalRotation::Quat([num(0.5), num(-0.1), num(0.2), num(0.3)]);
    assert_eq!(
        rotation_to_attitude(&q),
        Attitude::Quat { x: num(-0.1), y: num(0.2), z: num(0.3), w: num(0.5) }
    );
    let half_turn = plain::CanonicalRotation::Quat([num(0.0), num(1.0), num(0.0), num(0.0)]);
    assert_eq!(
        rotation_to_attitude(&half_turn),
        Attitude::Quat { x: num(1.0), y: num(0.0), z: num(0.0), w: num(0.0) }
    );
}
