//! Replaying a recording at controlled sim time.

use astrodyn_frame_doc::{
    CanonicalRotation as OutRotation, Conventions, DocHeader, FrameRecord, Origin, SeriesBuilder,
    TransRecord as OutTrans, SCHEMA_VERSION,
};
use astrodyn_quantities as quantities;
use astrodyn_quantities::{Moon, PlanetFixed, RootInertial};
use astrotui::binary64::Binary64;
use astrotui::frame_doc::{ApplyError, CanonicalRotation, TransRecord};
use astrotui::ident::FrameClass;
use astrotui::replay::Replay;
use astrotui::scene::{SceneStore, Vec3};
use astrotui::scene_doc::{
    ObjectEpochRow, ObjectKindWire, ObjectRecord, ObjectSegment, SceneError, SceneSeries,
};

fn num(x: f64) -> Binary64 {
    Binary64::from_bits(x.to_bits())
}

fn float(b: Binary64) -> f64 {
    f64::from_bits(b.to_bits())
}

fn at_x(x: f64) -> Vec3 {
    Vec3 { x: num(x), y: num(0.0), z: num(0.0) }
}

fn header() -> DocHeader {
    DocHeader {
        schema_version: SCHEMA_VERSION,
        conventions: Conventions::current(),
        simtime: 0.0,
        tai_tjt_at_epoch: 0.0,
    }
}

fn uids() -> Vec<quantities::FrameUid> {
    vec![
        quantities::FrameUid::of::<RootInertial>(),
        quantities::FrameUid::of::<PlanetFixed<Moon>>(),
    ]
}

fn frec(uid_index: u32, parent: Option<u32>, simtime: f64, x: f64) -> FrameRecord {
    FrameRecord {
        name: "f".into(),
        uid_index,
        parent,
        epoch: Some(simtime),
        trans: OutTrans { position: [x, 0.0, 0.0], velocity: [0.0; 3] },
        rotation: OutRotation::Quat([1.0, 0.0, 0.0, 0.0]),
        ang_vel_this: [0.0; 3],
        origin: Origin::Injected,
    }
}

fn obj(x: f64) -> ObjectRecord {
    ObjectRecord {
        id: "probe".into(),
        label: "probe".into(),
        frame_index: 1,
        kind: ObjectKindWire::Spacecraft,
        trans: TransRecord { position: [x, 0.0, 0.0].map(num), velocity: [num(0.0); 3] },
        rotation: CanonicalRotation::Quat([1.0, 0.0, 0.0, 0.0].map(num)),
        shape: None,
        path: None,
    }
}

// One segment with an epoch at each of the times; child and probe advance in x.
fn series_at(times: &[f64]) -> SceneSeries {
    let mut b = SeriesBuilder::new(header(), uids());
    for (i, &t) in times.iter().enumerate() {
        let x = 10.0 * (i + 1) as f64;
        b.push_epoch(t, vec![frec(0, None, t, 0.0), frec(1, Some(0), t, x)]);
    }
    let objects = vec![ObjectSegment {
        start_simtime: num(times[0]),
        epochs: times
            .iter()
            .enumerate()
            .map(|(i, &t)| ObjectEpochRow {
                simtime: num(t),
                objects: vec![obj((i + 1) as f64)], // 1,2,3
            })
            .collect(),
    }];
    SceneSeries { frames: b.finish(), objects }
}

// Three epochs at sim times 0,1,2.
fn series() -> SceneSeries {
    series_at(&[0.0, 1.0, 2.0])
}

fn bounds(r: &Replay) -> Option<(f64, f64)> {
    r.time_bounds().map(|(a, b)| (float(a), float(b)))
}

#[test]
fn timeline_and_bounds() {
    let r = Replay::new(series()).unwrap();
    assert_eq!(r.len(), 3);
    assert!(!r.is_empty());
    assert_eq!(bounds(&r), Some((0.0, 2.0)));
}

#[test]
fn cue_at_time_picks_last_at_or_before() {
    let r = Replay::new(series()).unwrap();
    assert_eq!(r.cue_at_time(num(-0.5)), None); // before the first cue
    assert_eq!(r.cue_at_time(num(0.0)), Some(0)); // exact
    assert_eq!(r.cue_at_time(num(0.9)), Some(0)); // between → previous
    assert_eq!(r.cue_at_time(num(1.0)), Some(1));
    assert_eq!(r.cue_at_time(num(99.0)), Some(2)); // past the end → last
}

#[test]
fn cues_at_the_edges_of_time() {
    let r = Replay::new(series()).unwrap();
    assert_eq!(r.cue_at_time(num(-0.0)), Some(0)); // minus zero is at zero
    assert_eq!(r.cue_at_time(num(f64::INFINITY)), Some(2));
    assert_eq!(r.cue_at_time(num(f64::NEG_INFINITY)), None);
    assert_eq!(r.cue_at_time(num(f64::NAN)), None);
    // Of several cues at one time, the last.
    let r = Replay::new(series_at(&[0.0, 1.0, 1.0, 1.0, 2.0])).unwrap();
    assert_eq!(r.cue_at_time(num(1.0)), Some(3));
    assert_eq!(r.cue_at_time(num(1.5)), Some(3));
    assert_eq!(r.cue_at_time(num(0.5)), Some(0));
}

#[test]
fn apply_at_drives_the_writer_to_the_right_epoch() {
    let r = Replay::new(series()).unwrap();
    let mut store = SceneStore::new();
    let w = store.writer("replay".into());

    // Before the start: nothing applied, store stays empty.
    assert_eq!(r.apply_at(num(-1.0), &w, &mut store).unwrap(), None);
    assert!(store.snapshot().is_empty());

    // At t=1.5 → cue 1: child at 20, probe at 2.
    assert_eq!(r.apply_at(num(1.5), &w, &mut store).unwrap(), Some(1));
    let snap = store.snapshot();
    let probe = snap.objects().iter().find(|o| o.id.as_str() == "probe").unwrap();
    assert_eq!(probe.state.position, at_x(2.0));
    let child = snap.frames().iter().find(|f| f.uid.class == FrameClass::PlanetFixed).unwrap();
    assert_eq!(child.state.position, at_x(20.0));

    // Advance to t=2 → cue 2: probe at 3.
    assert_eq!(r.apply_at(num(2.0), &w, &mut store).unwrap(), Some(2));
    let snap = store.snapshot();
    let probe = snap.objects().iter().find(|o| o.id.as_str() == "probe").unwrap();
    assert_eq!(probe.state.position, at_x(3.0));
}

#[test]
fn cues_apply_by_index() {
    let r = Replay::new(series()).unwrap();
    let mut store = SceneStore::new();
    let w = store.writer("replay".into());
    r.apply_cue(2, &w, &mut store).unwrap();
    assert_eq!(store.snapshot().objects()[0].state.position, at_x(3.0));
    // Past the end nothing changes.
    let err = r.apply_cue(3, &w, &mut store).unwrap_err();
    assert!(matches!(err, ApplyError::NoSuchEpoch));
    assert_eq!(store.snapshot().objects()[0].state.position, at_x(3.0));
    // And back.
    r.apply_cue(0, &w, &mut store).unwrap();
    assert_eq!(store.snapshot().objects()[0].state.position, at_x(1.0));
    assert_eq!(r.series().objects[0].epochs.len(), 3);
}

#[test]
fn segments_play_one_after_the_other() {
    let mut s = series_at(&[0.0, 1.0]);
    let later = series_at(&[5.0, 6.0, 7.0]);
    s.frames.segments.extend(later.frames.segments);
    s.objects.extend(later.objects);
    let r = Replay::new(s).unwrap();
    assert_eq!(r.len(), 5);
    assert_eq!(bounds(&r), Some((0.0, 7.0)));
    assert_eq!(r.cue_at_time(num(4.0)), Some(1));
    let mut store = SceneStore::new();
    let w = store.writer("replay".into());
    // The gap keeps the last epoch of the first segment; then the second segment's first.
    assert_eq!(r.apply_at(num(4.0), &w, &mut store).unwrap(), Some(1));
    assert_eq!(store.snapshot().objects()[0].state.position, at_x(2.0));
    assert_eq!(r.apply_at(num(5.0), &w, &mut store).unwrap(), Some(2));
    assert_eq!(store.snapshot().objects()[0].state.position, at_x(1.0));
}

#[test]
fn an_empty_recording_has_no_cues() {
    let mut s = series();
    s.frames.segments.clear();
    s.objects.clear();
    let r = Replay::new(s).unwrap();
    assert!(r.is_empty());
    assert_eq!(r.len(), 0);
    assert_eq!(bounds(&r), None);
    assert_eq!(r.cue_at_time(num(0.0)), None);
    let mut store = SceneStore::new();
    let w = store.writer("replay".into());
    assert_eq!(r.apply_at(num(9.0), &w, &mut store).unwrap(), None);
}

#[test]
fn an_incongruent_recording_has_no_player() {
    let mut s = series();
    s.objects[0].epochs.pop();
    match Replay::new(s) {
        Err(ApplyError::Scene(SceneError::SeriesMisaligned { segment: 0, epoch: None, .. })) => {}
        Err(other) => panic!("unexpected {other:?}"),
        Ok(_) => panic!("an incongruent recording must be refused"),
    }
}

#[test]
fn out_of_order_the_cue_shown_is_due_and_its_successor_is_not() {
    let times = [3.0, 1.0, 4.0, 0.0, 2.0];
    let r = Replay::new(series_at(&times)).unwrap();
    for t in [-1.0, 0.0, 0.5, 1.0, 2.5, 3.0, 3.5, 4.0, 9.0] {
        let mut store = SceneStore::new();
        let w = store.writer("replay".into());
        let shown = r.apply_at(num(t), &w, &mut store).unwrap();
        assert_eq!(shown, r.cue_at_time(num(t)));
        match shown {
            Some(i) => {
                assert!(times[i] <= t);
                assert!(i + 1 == times.len() || times[i + 1] > t);
                let snap = store.snapshot();
                assert_eq!(snap.objects()[0].state.position, at_x((i + 1) as f64));
            }
            None => {
                assert!(times[0] > t);
                assert!(store.snapshot().is_empty());
            }
        }
    }
}
