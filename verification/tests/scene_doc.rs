//! Scene documents and recordings: objects that ride alongside frames.

use astrodyn_frame_doc::{
    CanonicalRotation as OutRotation, Conventions, DocHeader, FrameDocument, FrameRecord, Origin,
    SeriesBuilder, TransRecord as OutTrans, SCHEMA_VERSION,
};
use astrodyn_quantities as quantities;
use astrodyn_quantities::{Mars, Moon, PlanetFixed, RootInertial};
use astrotui::binary64::Binary64;
use astrotui::frame_doc::{ApplyError, CanonicalRotation, TransRecord};
use astrotui::ident::{FrameClass, FrameRole, FrameUid};
use astrotui::names::BodyNames;
use astrotui::producer::Producer;
use astrotui::scene::{ObjectKind, SceneStore, Vec3};
use astrotui::scene_doc::{
    apply_scene_document, apply_scene_series_epoch, ObjectEpochRow, ObjectKindWire, ObjectRecord,
    ObjectSegment, SceneDocument, SceneDocumentProducer, SceneError, SceneSeries, ShapeRecord,
};

fn num(x: f64) -> Binary64 {
    Binary64::from_bits(x.to_bits())
}

fn float(b: Binary64) -> f64 {
    f64::from_bits(b.to_bits())
}

fn vec3(x: f64, y: f64, z: f64) -> Vec3 {
    Vec3 { x: num(x), y: num(y), z: num(z) }
}

fn header() -> DocHeader {
    DocHeader {
        schema_version: SCHEMA_VERSION,
        conventions: Conventions::current(),
        simtime: 0.0,
        tai_tjt_at_epoch: 0.0,
    }
}

fn root_uid() -> quantities::FrameUid {
    quantities::FrameUid::of::<RootInertial>()
}

fn child_uid() -> quantities::FrameUid {
    quantities::FrameUid::of::<PlanetFixed<Moon>>()
}

// The child's identity as the library holds it.
fn child() -> FrameUid {
    FrameUid {
        namespace: 0,
        class: FrameClass::PlanetFixed,
        role: FrameRole::Primary,
        tag: Some("Moon".to_string()),
    }
}

fn ident() -> CanonicalRotation {
    CanonicalRotation::Quat([1.0, 0.0, 0.0, 0.0].map(num))
}

fn frec(
    name: &str,
    uid_index: u32,
    parent: Option<u32>,
    simtime: f64,
    position: [f64; 3],
) -> FrameRecord {
    FrameRecord {
        name: name.into(),
        uid_index,
        parent,
        epoch: Some(simtime),
        trans: OutTrans { position, velocity: [0.0; 3] },
        rotation: OutRotation::Quat([1.0, 0.0, 0.0, 0.0]),
        ang_vel_this: [0.0; 3],
        origin: Origin::Injected,
    }
}

// root + a placed child at +x, the frame half that objects ride on.
fn base_frames() -> FrameDocument {
    FrameDocument {
        header: header(),
        uids: vec![root_uid(), child_uid()],
        records: vec![
            frec("root", 0, None, 0.0, [0.0; 3]),
            frec("moon_fixed", 1, Some(0), 0.0, [1.0, 2.0, 3.0]),
        ],
    }
}

fn obj(id: &str, frame_index: u32, position: [f64; 3]) -> ObjectRecord {
    ObjectRecord {
        id: id.into(),
        label: format!("label-{id}"),
        frame_index,
        kind: ObjectKindWire::Spacecraft,
        trans: TransRecord { position: position.map(num), velocity: [num(0.0); 3] },
        rotation: ident(),
        shape: None,
        path: None,
    }
}

fn earth_shape() -> ShapeRecord {
    ShapeRecord {
        name: "Earth".into(),
        mu: num(3.986_004_418e14),
        r_eq: num(6_378_137.0),
        r_pol: num(6_356_752.314_245),
        flat_coeff: num(0.003_352_810_664),
    }
}

fn doc_of(objects: Vec<ObjectRecord>) -> SceneDocument {
    SceneDocument { frames: base_frames(), objects }
}

fn apply(doc: &SceneDocument) -> (SceneStore, Result<(), ApplyError>) {
    let mut store = SceneStore::new();
    let w = store.writer("wire".into());
    let r = apply_scene_document(doc, &w, &mut store);
    (store, r)
}

fn refusal(doc: &SceneDocument) -> SceneError {
    let (store, r) = apply(doc);
    assert!(store.snapshot().is_empty(), "a refused document leaves the scene as it was");
    match r.unwrap_err() {
        ApplyError::Scene(e) => e,
        other => panic!("unexpected {other:?}"),
    }
}

#[test]
fn apply_places_objects_in_frames() {
    let (store, r) = apply(&doc_of(vec![obj("lander", 1, [5.0, 0.0, 0.0])]));
    r.unwrap();
    let snap = store.snapshot();
    assert_eq!(snap.frames().len(), 2);
    let o = snap.objects().iter().find(|o| o.id.as_str() == "lander").unwrap();
    assert_eq!(o.frame, child());
    assert_eq!(o.kind, ObjectKind::Spacecraft);
    assert_eq!(o.label, "label-lander");
    assert_eq!(o.state.position, vec3(5.0, 0.0, 0.0));
}

#[test]
fn orphan_object_rejected_out_of_range() {
    // index past the table of identities
    let (store, r) = apply(&doc_of(vec![obj("ghost", 9, [0.0; 3])]));
    assert!(matches!(r.unwrap_err(), ApplyError::Scene(SceneError::OrphanObject { .. })));
    assert!(store.snapshot().is_empty(), "nothing committed on orphan");
}

#[test]
fn orphan_object_rejected_unplaced_frame() {
    // Index 2 is a valid entry (Mars) but no record places it.
    let mut doc = doc_of(vec![obj("on_unplaced", 2, [0.0; 3])]);
    doc.frames.uids.push(quantities::FrameUid::of::<PlanetFixed<Mars>>());
    let (store, r) = apply(&doc);
    let err = r.unwrap_err();
    assert!(matches!(err, ApplyError::Scene(SceneError::OrphanObject { .. })));
    assert!(store.snapshot().is_empty());
    assert_eq!(
        err.message(),
        "scene wire error: object on_unplaced names frame index 2, which is not a placed frame \
         (uid table len 3)"
    );
}

#[test]
fn shape_round_trips_including_name_interning() {
    let mut o = obj("earthish", 1, [0.0; 3]);
    o.shape = Some(earth_shape());
    let doc = doc_of(vec![o]);
    // Apply twice into separate stores.
    let (s1, r1) = apply(&doc);
    r1.unwrap();
    let (s2, r2) = apply(&doc);
    r2.unwrap();
    let (snap1, snap2) = (s1.snapshot(), s2.snapshot());
    let sh1 = snap1.objects()[0].shape.as_ref().unwrap();
    let sh2 = snap2.objects()[0].shape.as_ref().unwrap();
    // Values survive bit-exact.
    assert_eq!(sh1.ellipsoid.name, "Earth");
    assert_eq!(float(sh1.ellipsoid.mu), 3.986_004_418e14);
    assert_eq!(float(sh1.ellipsoid.r_eq), 6_378_137.0);
    assert_eq!(float(sh1.ellipsoid.r_pol), 6_356_752.314_245);
    assert_eq!(float(sh1.ellipsoid.flat_coeff), 0.003_352_810_664);
    // The same name has the same place among the interned names.
    let mut names = BodyNames::new();
    let first = names.intern_body_name(&sh1.ellipsoid.name);
    assert_eq!(names.intern_body_name(&sh2.ellipsoid.name), first);
    assert_eq!(names.len(), 1);
}

#[test]
fn names_are_interned_once_each() {
    let mut names = BodyNames::default();
    assert!(names.is_empty());
    let places: Vec<usize> = ["Earth", "Moon", "Earth", "", "Moon", "Mars"]
        .iter()
        .map(|n| names.intern_body_name(n))
        .collect();
    assert_eq!(places, [0, 1, 0, 2, 1, 3]);
    assert_eq!(names.len(), 4);
    assert!(!names.is_empty());
}

#[test]
fn bad_shape_rejected_before_planetshape_panic() {
    let mut o = obj("prolate", 1, [0.0; 3]);
    o.shape = Some(ShapeRecord {
        name: "Bad".into(),
        mu: num(1.0),
        r_eq: num(1.0),
        r_pol: num(2.0), // prolate
        flat_coeff: num(0.0),
    });
    let (store, r) = apply(&doc_of(vec![o]));
    assert!(matches!(r.unwrap_err(), ApplyError::Scene(SceneError::BadShape { .. })));
    assert!(store.snapshot().is_empty());
}

#[test]
fn each_bad_shape_says_what_is_wrong() {
    let with = |r_eq: f64, r_pol: f64| {
        let mut o = obj("body", 1, [0.0; 3]);
        o.shape = Some(ShapeRecord { r_eq: num(r_eq), r_pol: num(r_pol), ..earth_shape() });
        o
    };
    let cases = [
        (0.0, 1.0, "r_eq must be > 0"),
        (-0.0, 1.0, "r_eq must be > 0"),
        (-1.0, -2.0, "r_eq must be > 0"),
        (1.0, 0.0, "r_pol must be > 0"),
        (1.0, -1.0, "r_pol must be > 0"),
        (1.0, 1.5, "r_pol must be <= r_eq (oblate or spherical only)"),
    ];
    for (r_eq, r_pol, want) in cases {
        let e = refusal(&doc_of(vec![with(r_eq, r_pol)]));
        match &e {
            SceneError::BadShape { object, why } => {
                assert_eq!(object, "body");
                assert_eq!(*why, want);
            }
            other => panic!("unexpected {other:?}"),
        }
        assert_eq!(e.message(), format!("object body has an invalid shape: {want}"));
    }
    // A sphere is fine, and so is an oblate body.
    for (r_eq, r_pol) in [(1.0, 1.0), (2.0, 1.0)] {
        assert!(doc_of(vec![with(r_eq, r_pol)]).validate().is_ok());
    }
    // A number that is not finite is reported as such, before the radii are looked at.
    for (r_eq, r_pol) in [(f64::NAN, -1.0), (f64::INFINITY, 1.0), (-1.0, f64::NEG_INFINITY)] {
        assert!(matches!(refusal(&doc_of(vec![with(r_eq, r_pol)])), SceneError::NonFinite(_)));
    }
}

#[test]
fn non_finite_object_field_rejected() {
    let mut o = obj("nan", 1, [f64::NAN, 0.0, 0.0]);
    o.path = Some(vec![[num(0.0); 3]]);
    let (store, r) = apply(&doc_of(vec![o]));
    let err = r.unwrap_err();
    assert!(matches!(err, ApplyError::Scene(SceneError::NonFinite(_))));
    assert!(store.snapshot().is_empty());
    assert_eq!(
        err.message(),
        "scene wire error: object nan has a non-finite numeric field"
    );
}

#[test]
fn every_numeric_field_must_be_finite() {
    let spoil: Vec<fn(&mut ObjectRecord)> = vec![
        |o| o.trans.position[2] = num(f64::INFINITY),
        |o| o.trans.velocity[1] = num(f64::NAN),
        |o| o.rotation = CanonicalRotation::Quat([1.0, 0.0, 0.0, f64::NAN].map(num)),
        |o| {
            let mut m = [[num(0.0); 3]; 3];
            m[2][1] = num(f64::NEG_INFINITY);
            o.rotation = CanonicalRotation::Matrix(m);
        },
        |o| o.path = Some(vec![[num(0.0); 3], [num(0.0), num(f64::NAN), num(0.0)]]),
        |o| o.shape = Some(ShapeRecord { mu: num(f64::NAN), ..earth_shape() }),
        |o| o.shape = Some(ShapeRecord { flat_coeff: num(f64::INFINITY), ..earth_shape() }),
    ];
    for f in spoil {
        let mut o = obj("x", 1, [0.0; 3]);
        f(&mut o);
        let e = refusal(&doc_of(vec![obj("fine", 0, [0.0; 3]), o]));
        assert!(matches!(e, SceneError::NonFinite(id) if id == "x"));
    }
    // An orphan is reported before its numbers are looked at, and the first object first.
    let e = refusal(&doc_of(vec![obj("ghost", 9, [f64::NAN; 3]), obj("x", 1, [f64::NAN; 3])]));
    assert!(matches!(e, SceneError::OrphanObject { object, frame_index: 9, len: 2 }
        if object == "ghost"));
}

#[test]
fn a_bad_frame_half_is_refused_first() {
    let mut doc = doc_of(vec![obj("ghost", 9, [0.0; 3])]);
    doc.frames.header.schema_version = 999;
    let e = refusal(&doc);
    assert!(matches!(e, SceneError::Frames(_)));
    let why = doc.frames.validate().unwrap_err().to_string();
    assert_eq!(e.message(), format!("frame half failed validation: {why}"));
    let (_, r) = apply(&doc);
    assert_eq!(
        r.unwrap_err().message(),
        format!("scene wire error: frame half failed validation: {why}")
    );
}

#[test]
fn a_scene_with_a_dangling_parent_is_refused() {
    let mut doc = doc_of(vec![obj("lander", 1, [0.0; 3])]);
    doc.frames.uids.push(quantities::FrameUid::of::<PlanetFixed<Mars>>());
    doc.frames.records[1].parent = Some(2);
    assert!(doc.validate().is_ok());
    let (store, r) = apply(&doc);
    assert!(matches!(r.unwrap_err(), ApplyError::DanglingParent { .. }));
    assert!(store.snapshot().is_empty());
}

#[test]
fn path_round_trips() {
    let mut o = obj("trail", 1, [0.0; 3]);
    o.path = Some(vec![[1.0, 2.0, 3.0].map(num), [4.0, 5.0, 6.0].map(num)]);
    let (store, r) = apply(&doc_of(vec![o]));
    r.unwrap();
    let snap = store.snapshot();
    let path = snap.objects()[0].path.as_ref().unwrap();
    assert_eq!(path.points, vec![vec3(1.0, 2.0, 3.0), vec3(4.0, 5.0, 6.0)]);
}

// Two epochs in one segment: the child moves +x, and an object with it.
fn base_series() -> SceneSeries {
    let mut b = SeriesBuilder::new(header(), vec![root_uid(), child_uid()]);
    for (t, x) in [(0.0, 10.0), (1.0, 20.0)] {
        b.push_epoch(
            t,
            vec![
                frec("root", 0, None, t, [0.0; 3]),
                frec("moon", 1, Some(0), t, [x, 0.0, 0.0]),
            ],
        );
    }
    let objects = vec![ObjectSegment {
        start_simtime: num(0.0),
        epochs: vec![
            ObjectEpochRow {
                simtime: num(0.0),
                objects: vec![obj("probe", 1, [1.0, 0.0, 0.0])],
            },
            ObjectEpochRow {
                simtime: num(1.0),
                objects: vec![obj("probe", 1, [2.0, 0.0, 0.0])],
            },
        ],
    }];
    SceneSeries { frames: b.finish(), objects }
}

fn apply_epoch(s: &SceneSeries, seg: usize, ep: usize) -> (SceneStore, Result<(), ApplyError>) {
    let mut store = SceneStore::new();
    let w = store.writer("wire".into());
    let r = apply_scene_series_epoch(s, seg, ep, &w, &mut store);
    (store, r)
}

#[test]
fn series_per_epoch_apply() {
    let series = base_series();
    let (store, r) = apply_epoch(&series, 0, 1);
    r.unwrap();
    let snap = store.snapshot();
    let probe = snap.objects().iter().find(|o| o.id.as_str() == "probe").unwrap();
    assert_eq!(probe.state.position, vec3(2.0, 0.0, 0.0)); // epoch index 1
    let c = snap.frames().iter().find(|f| f.uid == child()).unwrap();
    assert_eq!(c.state.position, vec3(20.0, 0.0, 0.0));

    // An epoch out of range is reported.
    assert!(matches!(apply_epoch(&series, 0, 9).1.unwrap_err(), ApplyError::NoSuchEpoch));
    assert!(matches!(apply_epoch(&series, 1, 0).1.unwrap_err(), ApplyError::NoSuchEpoch));
}

#[test]
fn series_misalignment_rejected() {
    // (a) epoch-count mismatch: drop one object epoch.
    let mut s = base_series();
    s.objects[0].epochs.pop();
    let err = apply_epoch(&s, 0, 0).1.unwrap_err();
    assert!(matches!(err, ApplyError::Scene(SceneError::SeriesMisaligned { .. })));
    assert_eq!(
        err.message(),
        "scene wire error: scene series misaligned at segment 0: epoch count differs"
    );

    // (b) simtime mismatch at epoch 1.
    let mut s = base_series();
    s.objects[0].epochs[1].simtime = num(1.5);
    let (store, r) = apply_epoch(&s, 0, 1);
    let err = r.unwrap_err();
    assert!(matches!(
        err,
        ApplyError::Scene(SceneError::SeriesMisaligned { epoch: Some(1), .. })
    ));
    assert!(store.snapshot().is_empty());
    assert_eq!(
        err.message(),
        "scene wire error: scene series misaligned at segment 0, epoch 1: epoch simtime differs"
    );

    // (c) segment-count mismatch.
    let mut s = base_series();
    s.objects.clear();
    let err = apply_epoch(&s, 0, 0).1.unwrap_err();
    assert!(matches!(err, ApplyError::Scene(SceneError::SeriesMisaligned { .. })));
    assert_eq!(
        err.message(),
        "scene wire error: scene series misaligned at segment 0: segment count differs between \
         the frame and object timelines"
    );
}

#[test]
fn times_are_congruent_bit_for_bit() {
    // Minus zero is another pattern than zero.
    let mut s = base_series();
    s.objects[0].start_simtime = num(-0.0);
    match s.validate().unwrap_err() {
        SceneError::SeriesMisaligned { segment: 0, epoch: None, why } => {
            assert_eq!(why, "segment start_simtime differs");
        }
        other => panic!("unexpected {other:?}"),
    }
    let mut s = base_series();
    s.objects[0].epochs[0].simtime = num(-0.0);
    assert!(matches!(
        s.validate().unwrap_err(),
        SceneError::SeriesMisaligned { segment: 0, epoch: Some(0), .. }
    ));
    assert!(base_series().validate().is_ok());
}

#[test]
fn a_row_deep_in_a_recording_is_validated() {
    let mut s = base_series();
    s.objects[0].epochs[1].objects[0].frame_index = 7;
    // Whichever epoch is asked for.
    for epoch in [0, 1, 9] {
        let (store, r) = apply_epoch(&s, 0, epoch);
        assert!(matches!(
            r.unwrap_err(),
            ApplyError::Scene(SceneError::OrphanObject { frame_index: 7, len: 2, .. })
        ));
        assert!(store.snapshot().is_empty());
    }
}

#[test]
fn scene_document_producer_populates() {
    let mut store = SceneStore::new();
    let w = store.writer("wire".into());
    let doc = doc_of(vec![obj("lander", 1, [0.0; 3])]);
    SceneDocumentProducer { doc }.populate(&w, &mut store);
    let snap = store.snapshot();
    assert_eq!(snap.frames().len(), 2);
    assert_eq!(snap.objects().len(), 1);
}

#[test]
fn a_scene_producer_hands_on_a_refusal() {
    let mut store = SceneStore::new();
    let w = store.writer("wire".into());
    let doc = doc_of(vec![obj("ghost", 9, [0.0; 3])]);
    let err = SceneDocumentProducer { doc }.try_populate(&w, &mut store).unwrap_err();
    assert!(matches!(err, ApplyError::Scene(SceneError::OrphanObject { .. })));
    assert!(store.snapshot().is_empty());
}

#[test]
fn kinds_map_both_ways() {
    let pairs = [
        (ObjectKindWire::Body, ObjectKind::Body),
        (ObjectKindWire::Spacecraft, ObjectKind::Spacecraft),
        (ObjectKindWire::Site, ObjectKind::Site),
        (ObjectKindWire::Marker, ObjectKind::Marker),
    ];
    for (wire, kind) in pairs {
        assert_eq!(ObjectKind::from(wire), kind);
        assert_eq!(ObjectKindWire::from(kind), wire);
    }
}

#[test]
fn the_last_of_two_objects_with_one_id_stays() {
    let mut second = obj("twin", 0, [2.0, 0.0, 0.0]);
    second.kind = ObjectKindWire::Site;
    let (store, r) = apply(&doc_of(vec![obj("twin", 1, [1.0, 0.0, 0.0]), second]));
    r.unwrap();
    let snap = store.snapshot();
    assert_eq!(snap.objects().len(), 1);
    assert_eq!(snap.objects()[0].kind, ObjectKind::Site);
    assert_eq!(snap.objects()[0].state.position, vec3(2.0, 0.0, 0.0));
}
