//! The scene data model and its ingestion API.
//!
//! The library owns the canonical render model, the [`SceneStore`]; producers populate it by
//! value through [`SceneWriter`] handles scoped to named layers. A reader takes the latest
//! committed [`Snapshot`], and the rendered scene is the live union of all layers — so each
//! producer has its own lifecycle and cadence without clobbering the others.
//!
//! A frame is known by its [`FrameUid`], which carries class, role and tag, so identity and
//! classification are one value. Quantities are carried by bit pattern and never computed on.

use std::sync::Arc;
use vstd::prelude::*;
use crate::binary64::Binary64;
use crate::ident::{FrameKey, FrameUid, LayerId, ObjectId};
use crate::keyed::{put, Keyed, TextKeyed};
use crate::text::{compare, TextOrder};

verus! {

/// A vector of three numbers.
#[derive(Clone, Copy, Debug, PartialEq, Eq, Structural)]
pub struct Vec3 {
    pub x: Binary64,
    pub y: Binary64,
    pub z: Binary64,
}

/// The time a sample is stamped with, in TDB seconds.
#[derive(Clone, Copy, Debug, PartialEq, Eq, Structural)]
pub struct Epoch {
    seconds: Binary64,
}

impl Epoch {
    /// The number of seconds.
    pub closed spec fn secs(self) -> Binary64 {
        self.seconds
    }

    /// The epoch at a number of seconds.
    pub fn from_seconds(seconds: Binary64) -> (r: Epoch)
        ensures
            r.secs() == seconds,
    {
        Epoch { seconds }
    }

    /// The number of seconds.
    pub fn as_seconds(self) -> (r: Binary64)
        ensures
            r == self.secs(),
    {
        self.seconds
    }
}

/// An orientation, parent to this, as the producer gave it.
#[derive(Clone, Copy, Debug, PartialEq, Eq, Structural)]
pub enum Attitude {
    /// A quaternion, scalar last.
    Quat { x: Binary64, y: Binary64, z: Binary64, w: Binary64 },
    /// A transformation matrix, by columns.
    Matrix { x_axis: Vec3, y_axis: Vec3, z_axis: Vec3 },
}

/// Kinematic state expressed in an object's (or frame's) native frame; never pre-projected into
/// the camera frame.
#[derive(Clone, Copy, Debug, PartialEq, Eq, Structural)]
pub struct BodyState {
    /// Position in the native frame (metres).
    pub position: Vec3,
    /// Velocity in the native frame (m/s).
    pub velocity: Vec3,
    /// Orientation of the body axes within the native frame.
    pub attitude: Attitude,
}

/// The zero vector.
pub open spec fn zero_vector() -> Vec3 {
    let z = Binary64 { bits: 0 };
    Vec3 { x: z, y: z, z }
}

impl Vec3 {
    /// The zero vector.
    pub fn zero() -> (r: Vec3)
        ensures
            r == zero_vector(),
    {
        let z: Binary64 = Binary64::from_bits(0);
        Vec3 { x: z, y: z, z }
    }
}

/// At rest at the origin, with the identity orientation.
pub open spec fn rest() -> BodyState {
    let z = Binary64 { bits: 0 };
    BodyState {
        position: zero_vector(),
        velocity: zero_vector(),
        attitude: Attitude::Quat { x: z, y: z, z, w: Binary64 { bits: crate::binary64::ONE } },
    }
}

impl Default for BodyState {
    /// At rest at the origin, with the identity orientation.
    fn default() -> (r: Self)
        ensures
            r == rest(),
    {
        let z: Binary64 = Binary64::from_bits(0);
        BodyState {
            position: Vec3::zero(),
            velocity: Vec3::zero(),
            attitude: Attitude::Quat {
                x: z,
                y: z,
                z,
                w: Binary64::from_bits(crate::binary64::ONE),
            },
        }
    }
}

/// A frame node: its identity, its parent in the tree, and its state relative to that parent.
/// No parent marks a root frame.
#[derive(Debug)]
pub struct FrameRecord {
    /// This frame's identity.
    pub uid: FrameUid,
    /// The parent frame's identity, or `None` for a root.
    pub parent: Option<FrameUid>,
    /// The time for which this state holds.
    pub epoch: Option<Epoch>,
    /// State of this frame relative to its parent.
    pub state: BodyState,
}

/// What an object is, for rendering and for choosing among objects.
#[derive(Clone, Copy, Debug, PartialEq, Eq, Structural)]
pub enum ObjectKind {
    /// A celestial body (planet, moon, sun).
    Body,
    /// A spacecraft or vehicle.
    Spacecraft,
    /// A fixed surface site (landing site, ground station).
    Site,
    /// A generic point of interest.
    Marker,
}

impl Default for ObjectKind {
    /// A generic point of interest.
    fn default() -> (r: Self)
        ensures
            r is Marker,
    {
        ObjectKind::Marker
    }
}

/// A reference ellipsoid.
#[derive(Debug, PartialEq, Eq)]
pub struct PlanetShape {
    /// The body's name.
    pub name: String,
    /// Gravitational parameter (m³/s²).
    pub mu: Binary64,
    /// Mean equatorial radius (m).
    pub r_eq: Binary64,
    /// Mean polar radius (m).
    pub r_pol: Binary64,
    /// Flattening coefficient.
    pub flat_coeff: Binary64,
}

/// The radii are those of an oblate or spherical body: finite, positive, the polar one no
/// larger than the equatorial.
pub open spec fn oblate(r_eq: Binary64, r_pol: Binary64) -> bool {
    let zero = Binary64 { bits: 0 };
    &&& crate::binary64::finite(r_eq) && crate::binary64::finite(r_pol)
    &&& crate::binary64::less(zero, r_eq) && crate::binary64::less(zero, r_pol)
    &&& crate::binary64::at_most(r_pol, r_eq)
}

/// An object's physical shape.
#[derive(Debug, PartialEq, Eq)]
pub struct BodyShape {
    /// The reference ellipsoid (mean radii, gravitational parameter, flattening).
    pub ellipsoid: PlanetShape,
}

impl BodyShape {
    /// Wrap an ellipsoid.
    pub fn ellipsoid(shape: PlanetShape) -> (r: BodyShape)
        ensures
            r.ellipsoid == shape,
    {
        BodyShape { ellipsoid: shape }
    }
}

/// A caller-supplied planned polyline, in the owning object's native frame.
#[derive(Debug, PartialEq, Eq)]
pub struct Path {
    /// Polyline vertices (metres).
    pub points: Vec<Vec3>,
}

/// Per-object render metadata supplied with a state on [`Transaction::object`].
#[derive(Debug)]
pub struct ObjectMeta {
    /// Human label.
    pub label: String,
    /// What the object is.
    pub kind: ObjectKind,
    /// Optional physical shape.
    pub shape: Option<BodyShape>,
    /// Optional caller-supplied planned path.
    pub path: Option<Path>,
}

impl Default for ObjectMeta {
    /// An unlabelled point of interest without shape or path.
    fn default() -> (r: Self)
        ensures
            r.label@ == Seq::<char>::empty(),
            r.kind is Marker,
            r.shape is None,
            r.path is None,
    {
        ObjectMeta { label: String::new(), kind: ObjectKind::Marker, shape: None, path: None }
    }
}

/// An object placed on a frame: its state in that native frame plus render metadata.
#[derive(Debug)]
pub struct SceneObject {
    /// This object's stable id.
    pub id: ObjectId,
    /// Human label.
    pub label: String,
    /// Identity of the frame this object lives in.
    pub frame: FrameUid,
    /// What the object is.
    pub kind: ObjectKind,
    /// State in the object's native frame.
    pub state: BodyState,
    /// Optional physical shape.
    pub shape: Option<BodyShape>,
    /// Optional caller-supplied planned path.
    pub path: Option<Path>,
}

/// The shape, where there is one, is that of an oblate or spherical body.
pub open spec fn shape_possible(shape: Option<BodyShape>) -> bool {
    shape matches Some(b) ==> oblate(b.ellipsoid.r_eq, b.ellipsoid.r_pol)
}

/// Every object's shape is possible.
pub open spec fn shapes_possible(objects: Map<Seq<char>, Arc<SceneObject>>) -> bool {
    forall|id: Seq<char>| #[trigger]
        objects.contains_key(id) ==> shape_possible(objects[id].shape)
}

impl Keyed<FrameKey> for Arc<FrameRecord> {
    open spec fn key(&self) -> FrameKey {
        self.uid@
    }
}

impl Keyed<Seq<char>> for Arc<SceneObject> {
    open spec fn key(&self) -> Seq<char> {
        self.id@
    }
}

impl TextKeyed for Arc<SceneObject> {
    fn key_text(&self) -> (r: &str) {
        self.id.as_str()
    }
}

/// One producer layer's committed content, as a mathematical value.
pub struct LayerModel {
    /// When it was committed.
    pub epoch: Option<Epoch>,
    /// The frames, by identity.
    pub frames: Map<FrameKey, Arc<FrameRecord>>,
    /// The objects, by id.
    pub objects: Map<Seq<char>, Arc<SceneObject>>,
}

/// One producer layer's committed content.
struct Layer {
    id: LayerId,
    epoch: Option<Epoch>,
    /// No two frames have one identity.
    frames: Vec<Arc<FrameRecord>>,
    /// Ascending by id.
    objects: Vec<Arc<SceneObject>>,
}

impl Keyed<Seq<char>> for Layer {
    closed spec fn key(&self) -> Seq<char> {
        self.id@
    }
}

impl TextKeyed for Layer {
    fn key_text(&self) -> (r: &str) {
        self.id.as_str()
    }
}

impl Layer {
    spec fn wf(self) -> bool {
        &&& crate::keyed::distinct::<FrameKey, Arc<FrameRecord>>(self.frames@)
        &&& crate::keyed::ascending(self.objects@)
        &&& shapes_possible(self.model().objects)
    }

    spec fn model(self) -> LayerModel {
        LayerModel {
            epoch: self.epoch,
            frames: crate::keyed::contents::<FrameKey, Arc<FrameRecord>>(self.frames@),
            objects: crate::keyed::contents::<Seq<char>, Arc<SceneObject>>(self.objects@),
        }
    }
}

/// Put a frame in, over any frame that has its identity.
fn put_frame(v: &mut Vec<Arc<FrameRecord>>, x: Arc<FrameRecord>)
    requires
        crate::keyed::distinct::<FrameKey, Arc<FrameRecord>>(old(v)@),
    ensures
        crate::keyed::distinct::<FrameKey, Arc<FrameRecord>>(final(v)@),
        crate::keyed::contents::<FrameKey, Arc<FrameRecord>>(final(v)@)
            == crate::keyed::contents::<FrameKey, Arc<FrameRecord>>(old(v)@).insert(x.uid@, x),
{
    let ghost s = v@;
    let mut i: usize = 0;
    while i < v.len()
        invariant
            v@ == s,
            i <= s.len(),
            crate::keyed::distinct::<FrameKey, Arc<FrameRecord>>(s),
            s == old(v)@,
            forall|j: int| 0 <= j < i ==> (#[trigger] s[j]).uid@ != x.uid@,
        decreases s.len() - i,
    {
        if v[i].uid.same(&x.uid) {
            proof {
                crate::keyed::lemma_contents_update::<FrameKey, Arc<FrameRecord>>(s, i as int, x);
            }
            v.set(i, x);
            return;
        }
        i = i + 1;
    }
    proof {
        crate::keyed::lemma_contents_insert::<FrameKey, Arc<FrameRecord>>(s, s.len() as int, x);
        assert(s.insert(s.len() as int, x) =~= s.push(x));
    }
    v.push(x);
}

/// No frame's display name comes before that of an earlier one.
pub open spec fn label_sorted(s: Seq<Arc<FrameRecord>>) -> bool {
    forall|i: int, j: int|
        0 <= i < j < s.len() ==> !crate::text::precedes(
            (#[trigger] s[j]).uid@.label(),
            (#[trigger] s[i]).uid@.label(),
        )
}

/// Order frames by display name, keeping the order of those with one name.
fn sort_frames(frames: Vec<Arc<FrameRecord>>) -> (r: Vec<Arc<FrameRecord>>)
    requires
        crate::keyed::distinct::<FrameKey, Arc<FrameRecord>>(frames@),
    ensures
        crate::keyed::distinct::<FrameKey, Arc<FrameRecord>>(r@),
        crate::keyed::contents::<FrameKey, Arc<FrameRecord>>(r@)
            == crate::keyed::contents::<FrameKey, Arc<FrameRecord>>(frames@),
        label_sorted(r@),
{
    let mut out: Vec<Arc<FrameRecord>> = Vec::new();
    let mut labels: Vec<String> = Vec::new();
    let mut n: usize = 0;
    assert(frames@.take(0) =~= Seq::empty());
    while n < frames.len()
        invariant
            n <= frames@.len(),
            out@.len() == n,
            labels@.len() == n,
            forall|i: int| 0 <= i < n ==> (#[trigger] labels@[i])@ == out@[i].uid@.label(),
            crate::keyed::distinct::<FrameKey, Arc<FrameRecord>>(frames@),
            crate::keyed::distinct::<FrameKey, Arc<FrameRecord>>(out@),
            crate::keyed::contents::<FrameKey, Arc<FrameRecord>>(out@)
                == crate::keyed::contents::<FrameKey, Arc<FrameRecord>>(frames@.take(n as int)),
            label_sorted(out@),
        decreases frames@.len() - n,
    {
        let x: Arc<FrameRecord> = Arc::clone(&frames[n]);
        let label: String = x.uid.label();
        let mut i: usize = 0;
        while i < labels.len()
            invariant_except_break
                i <= out@.len(),
            invariant
                i <= out@.len(),
                out@.len() == n,
                labels@.len() == n,
                label@ == x.uid@.label(),
                forall|j: int| 0 <= j < n ==> (#[trigger] labels@[j])@ == out@[j].uid@.label(),
                forall|j: int|
                    0 <= j < i ==> !crate::text::precedes(
                        label@,
                        (#[trigger] out@[j]).uid@.label(),
                    ),
            ensures
                i < n ==> crate::text::precedes(label@, out@[i as int].uid@.label()),
            decreases n - i,
        {
            match compare(label.as_str(), labels[i].as_str()) {
                TextOrder::Before => {
                    break;
                },
                _ => {
                    proof {
                        crate::text::lemma_precedes_asymmetric(label@, labels@[i as int]@);
                    }
                    i = i + 1;
                },
            }
        }
        proof {
            let s = out@;
            let taken = frames@.take(n as int);
            assert(frames@.take(n + 1) =~= taken.push(x));
            assert(taken.push(x).drop_last() =~= taken);
            assert(!crate::keyed::holds::<FrameKey, Arc<FrameRecord>>(s, x.uid@)) by {
                crate::keyed::lemma_contents_holds::<FrameKey, Arc<FrameRecord>>(s, x.uid@);
                crate::keyed::lemma_contents_holds::<FrameKey, Arc<FrameRecord>>(taken, x.uid@);
                if crate::keyed::holds::<FrameKey, Arc<FrameRecord>>(taken, x.uid@) {
                    let j = choose|j: int|
                        0 <= j < taken.len() && (#[trigger] taken[j]).key() == x.uid@;
                    assert(frames@[j].key() == frames@[n as int].key());
                }
            }
            crate::keyed::lemma_contents_insert::<FrameKey, Arc<FrameRecord>>(s, i as int, x);
            let u = s.insert(i as int, x);
            assert(label_sorted(u)) by {
                lemma_label_insert(s, i as int, x);
            }
        }
        out.insert(i, x);
        labels.insert(i, label);
        n = n + 1;
    }
    assert(frames@.take(n as int) =~= frames@);
    out
}

/// Inserting a frame after the names that do not come after its own keeps the order.
proof fn lemma_label_insert(s: Seq<Arc<FrameRecord>>, i: int, x: Arc<FrameRecord>)
    requires
        label_sorted(s),
        0 <= i <= s.len(),
        forall|j: int|
            0 <= j < i ==> !crate::text::precedes(x.uid@.label(), (#[trigger] s[j]).uid@.label()),
        i < s.len() ==> crate::text::precedes(x.uid@.label(), s[i].uid@.label()),
    ensures
        label_sorted(s.insert(i, x)),
{
    let u = s.insert(i, x);
    let lx = x.uid@.label();
    assert forall|j: int| i <= j < s.len() implies !crate::text::precedes(
        (#[trigger] s[j]).uid@.label(),
        lx,
    ) by {
        let lj = s[j].uid@.label();
        let li = s[i].uid@.label();
        if crate::text::precedes(lj, lx) {
            crate::text::lemma_precedes_transitive(lj, lx, li);
            crate::text::lemma_precedes_irreflexive(li);
            if i < j {
                assert(!crate::text::precedes(s[j].uid@.label(), s[i].uid@.label()));
            }
        }
    }
    assert forall|a: int, b: int| 0 <= a < b < u.len() implies !crate::text::precedes(
        (#[trigger] u[b]).uid@.label(),
        (#[trigger] u[a]).uid@.label(),
    ) by {
        let a1 = if a < i { a } else { a - 1 };
        let b1 = if b < i { b } else { b - 1 };
        if a == i {
            assert(u[b] == s[b1]);
        } else if b == i {
            assert(u[a] == s[a1]);
        } else {
            assert(u[a] == s[a1] && u[b] == s[b1]);
        }
    }
}

/// The epoch of a layer's most recent commit.
#[derive(Debug)]
struct LayerEpoch {
    id: LayerId,
    epoch: Epoch,
}

impl Keyed<Seq<char>> for LayerEpoch {
    closed spec fn key(&self) -> Seq<char> {
        self.id@
    }
}

impl TextKeyed for LayerEpoch {
    fn key_text(&self) -> (r: &str) {
        self.id.as_str()
    }
}

/// An immutable, point-in-time view of the whole scene: the union of every layer's most recent
/// commit. It never changes, so a reader that holds it across a commit sees a consistent scene.
#[derive(Debug)]
pub struct Snapshot {
    frames: Vec<Arc<FrameRecord>>,
    objects: Vec<Arc<SceneObject>>,
    layer_epochs: Vec<LayerEpoch>,
}

impl Snapshot {
    /// The frames, in order.
    pub closed spec fn frame_seq(self) -> Seq<Arc<FrameRecord>> {
        self.frames@
    }

    /// The objects, in order.
    pub closed spec fn object_seq(self) -> Seq<Arc<SceneObject>> {
        self.objects@
    }

    /// The epochs of the layers' most recent commits.
    pub closed spec fn epoch_map(self) -> Map<Seq<char>, Epoch> {
        crate::keyed::contents::<Seq<char>, LayerEpoch>(self.layer_epochs@).map_values(
            |e: LayerEpoch| e.epoch,
        )
    }

    /// Frames have distinct identities and stand in the order of their display names; objects
    /// ascend by id and have possible shapes.
    pub closed spec fn wf(self) -> bool {
        &&& crate::keyed::distinct::<FrameKey, Arc<FrameRecord>>(self.frames@)
        &&& label_sorted(self.frames@)
        &&& crate::keyed::ascending(self.objects@)
        &&& crate::keyed::ascending(self.layer_epochs@)
        &&& shapes_possible(crate::keyed::contents::<Seq<char>, Arc<SceneObject>>(self.objects@))
    }

    /// What well-formedness says of the frames and the objects.
    pub proof fn lemma_wf(self)
        requires
            self.wf(),
        ensures
            crate::keyed::distinct::<FrameKey, Arc<FrameRecord>>(self.frame_seq()),
            label_sorted(self.frame_seq()),
            crate::keyed::ascending(self.object_seq()),
            forall|i: int|
                0 <= i < self.object_seq().len() ==> shape_possible(
                    (#[trigger] self.object_seq()[i]).shape,
                ),
    {
        let objects = self.object_seq();
        crate::keyed::lemma_ascending_distinct(objects);
        assert forall|i: int| 0 <= i < objects.len() implies shape_possible(
            (#[trigger] objects[i]).shape,
        ) by {
            crate::keyed::lemma_contents_at::<Seq<char>, Arc<SceneObject>>(objects, i);
        }
    }

    /// All frame nodes across the union of layers (ordered by display name).
    pub fn frames(&self) -> (r: &Vec<Arc<FrameRecord>>)
        ensures
            r@ == self.frame_seq(),
    {
        &self.frames
    }

    /// All objects across the union of layers (ascending by id).
    pub fn objects(&self) -> (r: &Vec<Arc<SceneObject>>)
        ensures
            r@ == self.object_seq(),
    {
        &self.objects
    }

    /// The epoch of the layer's most recent commit, if that layer has committed.
    pub fn epoch(&self, layer: &LayerId) -> (r: Option<Epoch>)
        requires
            self.wf(),
        ensures
            r == if self.epoch_map().contains_key(layer@) {
                Some(self.epoch_map()[layer@])
            } else {
                None
            },
    {
        match crate::keyed::find(&self.layer_epochs, layer.as_str()) {
            Some(i) => Some(self.layer_epochs[i].epoch),
            None => None,
        }
    }

    /// Whether no layer has contributed any frames or objects.
    pub fn is_empty(&self) -> (r: bool)
        ensures
            r == (self.frame_seq().len() == 0 && self.object_seq().len() == 0),
    {
        self.frames.len() == 0 && self.objects.len() == 0
    }
}

impl Default for Snapshot {
    /// The empty scene.
    fn default() -> (r: Self)
        ensures
            r.wf(),
            r.frame_seq().len() == 0,
            r.object_seq().len() == 0,
            r.epoch_map() == Map::<Seq<char>, Epoch>::empty(),
    {
        let r: Snapshot = Snapshot {
            frames: Vec::new(),
            objects: Vec::new(),
            layer_epochs: Vec::new(),
        };
        assert(r.epoch_map() =~= Map::<Seq<char>, Epoch>::empty());
        r
    }
}

/// What a scene's layers hold, by layer name.
pub type Layers = Map<Seq<char>, LayerModel>;

/// Layer `l` is the last of the layers, in the order of their names, that declare object `id`.
pub open spec fn object_winner(m: Layers, l: Seq<char>, id: Seq<char>) -> bool {
    &&& m.contains_key(l)
    &&& m[l].objects.contains_key(id)
    &&& forall|n: Seq<char>| #[trigger]
        m.contains_key(n) && crate::text::precedes(l, n) ==> !m[n].objects.contains_key(id)
}

/// Layer `l` is the last of the layers, in the order of their names, that declare frame `uid`.
pub open spec fn frame_winner(m: Layers, l: Seq<char>, uid: FrameKey) -> bool {
    &&& m.contains_key(l)
    &&& m[l].frames.contains_key(uid)
    &&& forall|n: Seq<char>| #[trigger]
        m.contains_key(n) && crate::text::precedes(l, n) ==> !m[n].frames.contains_key(uid)
}

/// Some layer declares object `id`.
pub open spec fn object_declared(m: Layers, id: Seq<char>) -> bool {
    exists|l: Seq<char>| #[trigger] m.contains_key(l) && m[l].objects.contains_key(id)
}

/// Some layer declares frame `uid`.
pub open spec fn frame_declared(m: Layers, uid: FrameKey) -> bool {
    exists|l: Seq<char>| #[trigger] m.contains_key(l) && m[l].frames.contains_key(uid)
}

/// The snapshot shows the union of the layers: everything that some layer declares and nothing
/// else, with the last layer's word where several declare one thing; and each layer's epoch.
pub open spec fn shows(snap: Snapshot, m: Layers) -> bool {
    let objects = crate::keyed::contents::<Seq<char>, Arc<SceneObject>>(snap.object_seq());
    let frames = crate::keyed::contents::<FrameKey, Arc<FrameRecord>>(snap.frame_seq());
    &&& snap.wf()
    &&& forall|id: Seq<char>| #[trigger] objects.contains_key(id) <==> object_declared(m, id)
    &&& forall|l: Seq<char>, id: Seq<char>| #[trigger]
        object_winner(m, l, id) ==> objects[id] == m[l].objects[id]
    &&& forall|uid: FrameKey| #[trigger] frames.contains_key(uid) <==> frame_declared(m, uid)
    &&& forall|l: Seq<char>, uid: FrameKey| #[trigger]
        frame_winner(m, l, uid) ==> frames[uid] == m[l].frames[uid]
    &&& forall|l: Seq<char>| #[trigger]
        snap.epoch_map().contains_key(l) <==> m.contains_key(l) && m[l].epoch is Some
    &&& forall|l: Seq<char>| #[trigger]
        snap.epoch_map().contains_key(l) ==> m[l].epoch == Some(snap.epoch_map()[l])
}

/// What a sequence of layers holds, by name.
spec fn models(ls: Seq<Layer>) -> Layers {
    crate::keyed::contents::<Seq<char>, Layer>(ls).map_values(|l: Layer| l.model())
}

/// The objects of the layers, later layers over earlier ones.
spec fn union_objects(ls: Seq<Layer>) -> Map<Seq<char>, Arc<SceneObject>>
    decreases ls.len(),
{
    if ls.len() == 0 {
        Map::empty()
    } else {
        union_objects(ls.drop_last()).union_prefer_right(ls.last().model().objects)
    }
}

/// The frames of the layers, later layers over earlier ones.
spec fn union_frames(ls: Seq<Layer>) -> Map<FrameKey, Arc<FrameRecord>>
    decreases ls.len(),
{
    if ls.len() == 0 {
        Map::empty()
    } else {
        union_frames(ls.drop_last()).union_prefer_right(ls.last().model().frames)
    }
}

/// A layer's model is found under its name.
proof fn lemma_models_at(ls: Seq<Layer>, i: int)
    requires
        crate::keyed::ascending(ls),
        0 <= i < ls.len(),
    ensures
        models(ls).contains_key(ls[i].id@),
        models(ls)[ls[i].id@] == ls[i].model(),
{
    crate::keyed::lemma_ascending_distinct(ls);
    crate::keyed::lemma_contents_at::<Seq<char>, Layer>(ls, i);
}

/// Every name in the models is that of a layer.
proof fn lemma_models_from(ls: Seq<Layer>, l: Seq<char>) -> (i: int)
    requires
        crate::keyed::ascending(ls),
        models(ls).contains_key(l),
    ensures
        0 <= i < ls.len(),
        ls[i].id@ == l,
        models(ls)[l] == ls[i].model(),
{
    crate::keyed::lemma_contents_holds::<Seq<char>, Layer>(ls, l);
    let i = choose|i: int| 0 <= i < ls.len() && (#[trigger] ls[i]).key() == l;
    lemma_models_at(ls, i);
    i
}

/// The union has the objects that some layer has, with the last such layer's value.
proof fn lemma_union_objects(ls: Seq<Layer>, id: Seq<char>)
    ensures
        union_objects(ls).contains_key(id) <==> exists|i: int|
            0 <= i < ls.len() && (#[trigger] ls[i]).model().objects.contains_key(id),
        forall|i: int|
            0 <= i < ls.len() && (#[trigger] ls[i]).model().objects.contains_key(id) && (forall|
                j: int,
            |
                i < j < ls.len() ==> !(#[trigger] ls[j]).model().objects.contains_key(id))
                ==> union_objects(ls)[id] == ls[i].model().objects[id],
    decreases ls.len(),
{
    if ls.len() > 0 {
        let t = ls.drop_last();
        lemma_union_objects(t, id);
        assert(ls.last() == ls[ls.len() - 1]);
        assert forall|i: int| 0 <= i < t.len() implies #[trigger] t[i] == ls[i] by {}
        if exists|i: int| 0 <= i < t.len() && (#[trigger] t[i]).model().objects.contains_key(id) {
            let i = choose|i: int|
                0 <= i < t.len() && (#[trigger] t[i]).model().objects.contains_key(id);
            assert(ls[i].model().objects.contains_key(id));
        }
        if exists|i: int| 0 <= i < ls.len() && (#[trigger] ls[i]).model().objects.contains_key(id) {
            let i = choose|i: int|
                0 <= i < ls.len() && (#[trigger] ls[i]).model().objects.contains_key(id);
            if i < t.len() {
                assert(t[i].model().objects.contains_key(id));
            }
        }
        assert forall|i: int|
            0 <= i < ls.len() && (#[trigger] ls[i]).model().objects.contains_key(id) && (forall|
                j: int,
            |
                i < j < ls.len() ==> !(#[trigger] ls[j]).model().objects.contains_key(
                    id,
                )) implies union_objects(ls)[id] == ls[i].model().objects[id] by {
            if i < t.len() {
                assert(t[i].model().objects.contains_key(id));
                assert(!ls[ls.len() - 1].model().objects.contains_key(id));
                assert forall|j: int| i < j < t.len() implies !(
                #[trigger] t[j]).model().objects.contains_key(id) by {
                    assert(t[j] == ls[j]);
                }
            }
        }
    }
}

/// The union has the frames that some layer has, with the last such layer's value.
proof fn lemma_union_frames(ls: Seq<Layer>, uid: FrameKey)
    ensures
        union_frames(ls).contains_key(uid) <==> exists|i: int|
            0 <= i < ls.len() && (#[trigger] ls[i]).model().frames.contains_key(uid),
        forall|i: int|
            0 <= i < ls.len() && (#[trigger] ls[i]).model().frames.contains_key(uid) && (forall|
                j: int,
            |
                i < j < ls.len() ==> !(#[trigger] ls[j]).model().frames.contains_key(uid))
                ==> union_frames(ls)[uid] == ls[i].model().frames[uid],
    decreases ls.len(),
{
    if ls.len() > 0 {
        let t = ls.drop_last();
        lemma_union_frames(t, uid);
        assert(ls.last() == ls[ls.len() - 1]);
        assert forall|i: int| 0 <= i < t.len() implies #[trigger] t[i] == ls[i] by {}
        if exists|i: int| 0 <= i < t.len() && (#[trigger] t[i]).model().frames.contains_key(uid) {
            let i = choose|i: int|
                0 <= i < t.len() && (#[trigger] t[i]).model().frames.contains_key(uid);
            assert(ls[i].model().frames.contains_key(uid));
        }
        if exists|i: int| 0 <= i < ls.len() && (#[trigger] ls[i]).model().frames.contains_key(uid) {
            let i = choose|i: int|
                0 <= i < ls.len() && (#[trigger] ls[i]).model().frames.contains_key(uid);
            if i < t.len() {
                assert(t[i].model().frames.contains_key(uid));
            }
        }
        assert forall|i: int|
            0 <= i < ls.len() && (#[trigger] ls[i]).model().frames.contains_key(uid) && (forall|
                j: int,
            |
                i < j < ls.len() ==> !(#[trigger] ls[j]).model().frames.contains_key(
                    uid,
                )) implies union_frames(ls)[uid] == ls[i].model().frames[uid] by {
            if i < t.len() {
                assert(t[i].model().frames.contains_key(uid));
                assert(!ls[ls.len() - 1].model().frames.contains_key(uid));
                assert forall|j: int| i < j < t.len() implies !(
                #[trigger] t[j]).model().frames.contains_key(uid) by {
                    assert(t[j] == ls[j]);
                }
            }
        }
    }
}

/// A snapshot built from the union of the layers shows them.
proof fn lemma_shows(snap: Snapshot, ls: Seq<Layer>)
    requires
        snap.wf(),
        crate::keyed::ascending(ls),
        crate::keyed::contents::<Seq<char>, Arc<SceneObject>>(snap.object_seq()) == union_objects(
            ls,
        ),
        crate::keyed::contents::<FrameKey, Arc<FrameRecord>>(snap.frame_seq()) == union_frames(ls),
        forall|l: Seq<char>| #[trigger]
            snap.epoch_map().contains_key(l) <==> models(ls).contains_key(l)
                && models(ls)[l].epoch is Some,
        forall|l: Seq<char>| #[trigger]
            snap.epoch_map().contains_key(l) ==> models(ls)[l].epoch == Some(snap.epoch_map()[l]),
    ensures
        shows(snap, models(ls)),
{
    let m = models(ls);
    let objects = union_objects(ls);
    let frames = union_frames(ls);
    assert forall|id: Seq<char>| #[trigger] objects.contains_key(id) <==> object_declared(m, id) by {
        lemma_union_objects(ls, id);
        if objects.contains_key(id) {
            let i = choose|i: int|
                0 <= i < ls.len() && (#[trigger] ls[i]).model().objects.contains_key(id);
            lemma_models_at(ls, i);
            assert(m.contains_key(ls[i].id@));
        }
        if object_declared(m, id) {
            let l = choose|l: Seq<char>| #[trigger]
                m.contains_key(l) && m[l].objects.contains_key(id);
            let i = lemma_models_from(ls, l);
            assert(ls[i].model().objects.contains_key(id));
        }
    }
    assert forall|l: Seq<char>, id: Seq<char>| #[trigger] object_winner(m, l, id) implies objects[id]
        == m[l].objects[id] by {
        let i = lemma_models_from(ls, l);
        lemma_union_objects(ls, id);
        assert forall|j: int| i < j < ls.len() implies !(
        #[trigger] ls[j]).model().objects.contains_key(id) by {
            lemma_models_at(ls, j);
            assert(crate::text::precedes(ls[i].key(), ls[j].key()));
            assert(m.contains_key(ls[j].id@));
        }
        assert(ls[i].model().objects.contains_key(id));
    }
    assert forall|uid: FrameKey| #[trigger] frames.contains_key(uid) <==> frame_declared(m, uid) by {
        lemma_union_frames(ls, uid);
        if frames.contains_key(uid) {
            let i = choose|i: int|
                0 <= i < ls.len() && (#[trigger] ls[i]).model().frames.contains_key(uid);
            lemma_models_at(ls, i);
            assert(m.contains_key(ls[i].id@));
        }
        if frame_declared(m, uid) {
            let l = choose|l: Seq<char>| #[trigger]
                m.contains_key(l) && m[l].frames.contains_key(uid);
            let i = lemma_models_from(ls, l);
            assert(ls[i].model().frames.contains_key(uid));
        }
    }
    assert forall|l: Seq<char>, uid: FrameKey| #[trigger] frame_winner(m, l, uid) implies frames[uid]
        == m[l].frames[uid] by {
        let i = lemma_models_from(ls, l);
        lemma_union_frames(ls, uid);
        assert forall|j: int| i < j < ls.len() implies !(
        #[trigger] ls[j]).model().frames.contains_key(uid) by {
            lemma_models_at(ls, j);
            assert(crate::text::precedes(ls[i].key(), ls[j].key()));
            assert(m.contains_key(ls[j].id@));
        }
        assert(ls[i].model().frames.contains_key(uid));
    }
}

/// Laying one more item over a map.
proof fn lemma_over_step<K, T: Keyed<K>>(m: Map<K, T>, s: Seq<T>, j: int)
    requires
        0 <= j < s.len(),
    ensures
        m.union_prefer_right(crate::keyed::contents::<K, T>(s.take(j))).insert(s[j].key(), s[j])
            == m.union_prefer_right(crate::keyed::contents::<K, T>(s.take(j + 1))),
{
    assert(s.take(j + 1).drop_last() =~= s.take(j));
    assert(s.take(j + 1).last() == s[j]);
    assert(m.union_prefer_right(crate::keyed::contents::<K, T>(s.take(j))).insert(s[j].key(), s[j])
        =~= m.union_prefer_right(crate::keyed::contents::<K, T>(s.take(j + 1))));
}

/// The epochs of the first `n` layers that carry one.
spec fn epochs_shown(epochs: Map<Seq<char>, LayerEpoch>, ls: Seq<Layer>, n: int) -> bool {
    &&& forall|l: Seq<char>| #[trigger]
        epochs.contains_key(l) ==> exists|i: int|
            0 <= i < n && (#[trigger] ls[i]).id@ == l && ls[i].epoch is Some
    &&& forall|i: int|
        0 <= i < n && (#[trigger] ls[i]).epoch is Some ==> epochs.contains_key(ls[i].id@) && Some(
            epochs[ls[i].id@].epoch,
        ) == ls[i].epoch
}

/// Rebuild the union snapshot from all layers. Where two layers declare one id, the layer later
/// in the order of names wins.
fn rebuild(layers: &Vec<Layer>) -> (r: Snapshot)
    requires
        crate::keyed::ascending(layers@),
        forall|i: int| 0 <= i < layers@.len() ==> (#[trigger] layers@[i]).wf(),
    ensures
        shows(r, models(layers@)),
{
    let ghost ls = layers@;
    let mut frames: Vec<Arc<FrameRecord>> = Vec::new();
    let mut objects: Vec<Arc<SceneObject>> = Vec::new();
    let mut layer_epochs: Vec<LayerEpoch> = Vec::new();
    let mut n: usize = 0;
    assert(ls.take(0) =~= Seq::empty());
    while n < layers.len()
        invariant
            ls == layers@,
            n <= ls.len(),
            crate::keyed::ascending(ls),
            forall|i: int| 0 <= i < ls.len() ==> (#[trigger] ls[i]).wf(),
            crate::keyed::distinct::<FrameKey, Arc<FrameRecord>>(frames@),
            crate::keyed::ascending(objects@),
            crate::keyed::ascending(layer_epochs@),
            shapes_possible(crate::keyed::contents::<Seq<char>, Arc<SceneObject>>(objects@)),
            crate::keyed::contents::<FrameKey, Arc<FrameRecord>>(frames@) == union_frames(
                ls.take(n as int),
            ),
            crate::keyed::contents::<Seq<char>, Arc<SceneObject>>(objects@) == union_objects(
                ls.take(n as int),
            ),
            epochs_shown(
                crate::keyed::contents::<Seq<char>, LayerEpoch>(layer_epochs@),
                ls,
                n as int,
            ),
        decreases ls.len() - n,
    {
        let layer: &Layer = &layers[n];
        let ghost under_frames = union_frames(ls.take(n as int));
        let ghost under_objects = union_objects(ls.take(n as int));
        let ghost before = crate::keyed::contents::<Seq<char>, LayerEpoch>(layer_epochs@);
        match layer.epoch {
            Some(epoch) => {
                put(&mut layer_epochs, LayerEpoch { id: layer.id.clone(), epoch });
            },
            None => {},
        }
        proof {
            crate::keyed::lemma_ascending_distinct(ls);
            let after = crate::keyed::contents::<Seq<char>, LayerEpoch>(layer_epochs@);
            assert(epochs_shown(after, ls, n + 1)) by {
                assert forall|l: Seq<char>| #[trigger] after.contains_key(l) implies exists|i: int|
                    0 <= i < n + 1 && (#[trigger] ls[i]).id@ == l && ls[i].epoch is Some by {
                    if before.contains_key(l) {
                        let i = choose|i: int|
                            0 <= i < n && (#[trigger] ls[i]).id@ == l && ls[i].epoch is Some;
                        assert(ls[i].id@ == l && ls[i].epoch is Some);
                    } else {
                        assert(ls[n as int].id@ == l && ls[n as int].epoch is Some);
                    }
                }
                assert forall|i: int|
                    0 <= i < n + 1 && (#[trigger] ls[i]).epoch is Some implies after.contains_key(
                    ls[i].id@,
                ) && Some(after[ls[i].id@].epoch) == ls[i].epoch by {
                    if i < n {
                        assert(ls[i].key() != ls[n as int].key());
                    }
                }
            }
        }
        let mut j: usize = 0;
        proof {
            assert(layer.frames@.take(0) =~= Seq::empty());
            assert(under_frames.union_prefer_right(Map::empty()) =~= under_frames);
        }
        while j < layer.frames.len()
            invariant
                j <= layer.frames@.len(),
                crate::keyed::distinct::<FrameKey, Arc<FrameRecord>>(frames@),
                crate::keyed::contents::<FrameKey, Arc<FrameRecord>>(frames@)
                    == under_frames.union_prefer_right(
                    crate::keyed::contents::<FrameKey, Arc<FrameRecord>>(
                        layer.frames@.take(j as int),
                    ),
                ),
            decreases layer.frames@.len() - j,
        {
            proof {
                lemma_over_step::<FrameKey, Arc<FrameRecord>>(
                    under_frames,
                    layer.frames@,
                    j as int,
                );
            }
            put_frame(&mut frames, Arc::clone(&layer.frames[j]));
            j = j + 1;
        }
        assert(layer.frames@.take(j as int) =~= layer.frames@);
        let mut k: usize = 0;
        proof {
            assert(layer.objects@.take(0) =~= Seq::empty());
            assert(under_objects.union_prefer_right(Map::empty()) =~= under_objects);
        }
        while k < layer.objects.len()
            invariant
                k <= layer.objects@.len(),
                crate::keyed::ascending(objects@),
                crate::keyed::contents::<Seq<char>, Arc<SceneObject>>(objects@)
                    == under_objects.union_prefer_right(
                    crate::keyed::contents::<Seq<char>, Arc<SceneObject>>(
                        layer.objects@.take(k as int),
                    ),
                ),
            decreases layer.objects@.len() - k,
        {
            proof {
                lemma_over_step::<Seq<char>, Arc<SceneObject>>(
                    under_objects,
                    layer.objects@,
                    k as int,
                );
            }
            put(&mut objects, Arc::clone(&layer.objects[k]));
            k = k + 1;
        }
        assert(layer.objects@.take(k as int) =~= layer.objects@);
        assert(shapes_possible(crate::keyed::contents::<Seq<char>, Arc<SceneObject>>(objects@)));
        proof {
            assert(ls.take(n + 1).drop_last() =~= ls.take(n as int));
            assert(ls.take(n + 1).last() == ls[n as int]);
        }
        n = n + 1;
    }
    assert(ls.take(n as int) =~= ls);
    let r: Snapshot = Snapshot { frames: sort_frames(frames), objects, layer_epochs };
    proof {
        let epochs = crate::keyed::contents::<Seq<char>, LayerEpoch>(layer_epochs@);
        assert forall|l: Seq<char>| #[trigger] r.epoch_map().contains_key(l) implies models(
            ls,
        ).contains_key(l) && models(ls)[l].epoch == Some(r.epoch_map()[l]) by {
            assert(epochs.contains_key(l));
            let i = choose|i: int|
                0 <= i < n && (#[trigger] ls[i]).id@ == l && ls[i].epoch is Some;
            lemma_models_at(ls, i);
        }
        assert forall|l: Seq<char>|
            models(ls).contains_key(l) && models(ls)[l].epoch is Some implies #[trigger]
        r.epoch_map().contains_key(l) by {
            let i = lemma_models_from(ls, l);
            assert(ls[i].epoch is Some);
        }
        lemma_shows(r, ls);
    }
    r
}

/// The snapshot that readers see, in an `arc_swap::ArcSwap`.
#[verifier::external_body]
pub struct Published {
    cell: arc_swap::ArcSwap<Snapshot>,
}

/// The snapshot that the cell holds.
pub uninterp spec fn published_snapshot(p: Published) -> Snapshot;

/// `ArcSwap::from_pointee`: a cell that holds the given snapshot.
#[verifier::external_body]
fn publish_first(snapshot: Snapshot) -> (r: Published)
    ensures
        published_snapshot(r) == snapshot,
{
    Published { cell: arc_swap::ArcSwap::from_pointee(snapshot) }
}

/// `ArcSwap::store`: the cell holds the given snapshot from then on. The exclusive borrow rules
/// out that another handle stores into the cell meanwhile.
#[verifier::external_body]
fn publish(p: &mut Published, snapshot: Arc<Snapshot>)
    ensures
        published_snapshot(*final(p)) == *snapshot,
{
    p.cell.store(snapshot);
}

/// `ArcSwap::load_full`: a handle on the snapshot that the cell holds.
#[verifier::external_body]
fn load(p: &Published) -> (r: Arc<Snapshot>)
    ensures
        *r == published_snapshot(*p),
{
    p.cell.load_full()
}

/// The canonical, owned render model. The host creates one and keeps it for the app's whole
/// life; producers write into it through [`SceneStore::writer`], readers take
/// [`SceneStore::snapshot`].
pub struct SceneStore {
    /// Committed content, ascending by layer name.
    layers: Vec<Layer>,
    /// The union of the layers.
    published: Published,
}

impl View for SceneStore {
    type V = Layers;

    closed spec fn view(&self) -> Layers {
        models(self.layers@)
    }
}

impl SceneStore {
    /// Layers stand in the order of their names, and what is published shows them.
    pub closed spec fn wf(self) -> bool {
        &&& crate::keyed::ascending(self.layers@)
        &&& forall|i: int| 0 <= i < self.layers@.len() ==> (#[trigger] self.layers@[i]).wf()
        &&& shows(published_snapshot(self.published), self@)
    }

    /// The latest committed snapshot.
    pub closed spec fn latest(self) -> Snapshot {
        published_snapshot(self.published)
    }

    /// Create an empty store.
    pub fn new() -> (r: Self)
        ensures
            r.wf(),
            r@ == Map::<Seq<char>, LayerModel>::empty(),
    {
        let layers: Vec<Layer> = Vec::new();
        let snapshot: Snapshot = rebuild(&layers);
        let r: SceneStore = SceneStore { layers, published: publish_first(snapshot) };
        assert(r@ =~= Map::<Seq<char>, LayerModel>::empty());
        r
    }

    /// Get a [`SceneWriter`] for a named layer. Writers for one layer name share that layer;
    /// different names are isolated.
    pub fn writer(&self, layer: LayerId) -> (r: SceneWriter)
        ensures
            r.target() == layer,
    {
        SceneWriter { layer }
    }

    /// The latest committed snapshot. Hold it as long as you like; it is immutable and
    /// unaffected by later commits.
    pub fn snapshot(&self) -> (r: Arc<Snapshot>)
        requires
            self.wf(),
        ensures
            *r == self.latest(),
            shows(*r, self@),
    {
        load(&self.published)
    }
}

impl Default for SceneStore {
    /// An empty store.
    fn default() -> (r: Self)
        ensures
            r.wf(),
            r@ == Map::<Seq<char>, LayerModel>::empty(),
    {
        SceneStore::new()
    }
}

/// A handle that publishes into one named layer of a [`SceneStore`].
#[derive(Debug)]
pub struct SceneWriter {
    layer: LayerId,
}

impl Clone for SceneWriter {
    fn clone(&self) -> (r: Self)
        ensures
            r == *self,
    {
        SceneWriter { layer: self.layer.clone() }
    }
}

impl SceneWriter {
    /// The layer this writer publishes into.
    pub closed spec fn target(self) -> LayerId {
        self.layer
    }

    /// The layer this writer publishes into.
    pub fn layer(&self) -> (r: &LayerId)
        ensures
            *r == self.target(),
    {
        &self.layer
    }

    /// Begin a transaction stamped with `epoch`. Stage frames and objects on it, and commit it
    /// to replace this layer's contents.
    pub fn begin(&self, epoch: Epoch) -> (r: Transaction)
        ensures
            r.wf(),
            r.target() == self.target(),
            r.staged().epoch == Some(epoch),
            r.staged().frames == Map::<FrameKey, Arc<FrameRecord>>::empty(),
            r.staged().objects == Map::<Seq<char>, Arc<SceneObject>>::empty(),
    {
        Transaction {
            layer: Layer {
                id: self.layer.clone(),
                epoch: Some(epoch),
                frames: Vec::new(),
                objects: Vec::new(),
            },
        }
    }
}

/// A staged set of frames and objects for one layer. Building a transaction does not touch the
/// store; [`Transaction::commit`] publishes it as the layer's new contents.
pub struct Transaction {
    layer: Layer,
}

impl Transaction {
    /// No frame or object is staged twice, and every shape is possible.
    pub closed spec fn wf(self) -> bool {
        self.layer.wf()
    }

    /// The layer the transaction is for.
    pub closed spec fn target(self) -> LayerId {
        self.layer.id
    }

    /// What is staged so far.
    pub closed spec fn staged(self) -> LayerModel {
        self.layer.model()
    }

    /// Stage a frame node by its identity, with its parent and its state relative to that
    /// parent. The frame's epoch is the transaction's epoch.
    pub fn frame(
        &mut self,
        uid: FrameUid,
        parent: Option<FrameUid>,
        state: BodyState,
    ) -> (r: &mut Self)
        requires
            old(self).wf(),
        ensures
            *final(self) == *final(r),
            r.wf(),
            r.target() == old(self).target(),
            r.staged() == (LayerModel {
                frames: old(self).staged().frames.insert(
                    uid@,
                    Arc::new(FrameRecord { uid, parent, epoch: old(self).staged().epoch, state }),
                ),
                ..old(self).staged()
            }),
    {
        let epoch: Option<Epoch> = self.layer.epoch;
        put_frame(&mut self.layer.frames, Arc::new(FrameRecord { uid, parent, epoch, state }));
        self
    }

    /// Stage an object placed on the frame named by `frame`, with `state` in that native frame
    /// and render `meta`. A shape is that of an oblate or spherical body.
    pub fn object(
        &mut self,
        id: ObjectId,
        frame: FrameUid,
        state: BodyState,
        meta: ObjectMeta,
    ) -> (r: &mut Self)
        requires
            old(self).wf(),
            shape_possible(meta.shape),
        ensures
            *final(self) == *final(r),
            r.wf(),
            r.target() == old(self).target(),
            r.staged() == (LayerModel {
                objects: old(self).staged().objects.insert(
                    id@,
                    Arc::new(
                        SceneObject {
                            id,
                            label: meta.label,
                            frame,
                            kind: meta.kind,
                            state,
                            shape: meta.shape,
                            path: meta.path,
                        },
                    ),
                ),
                ..old(self).staged()
            }),
    {
        put(
            &mut self.layer.objects,
            Arc::new(
                SceneObject {
                    id,
                    label: meta.label,
                    frame,
                    kind: meta.kind,
                    state,
                    shape: meta.shape,
                    path: meta.path,
                },
            ),
        );
        self
    }

    /// Replace this layer's contents with the staged set and republish the union snapshot.
    /// Other layers are untouched.
    pub fn commit(self, store: &mut SceneStore)
        requires
            self.wf(),
            old(store).wf(),
        ensures
            final(store).wf(),
            final(store)@ == old(store)@.insert(self.target()@, self.staged()),
    {
        let ghost before = store.layers@;
        let ghost layer = self.layer;
        put(&mut store.layers, self.layer);
        proof {
            let after = store.layers@;
            assert forall|i: int| 0 <= i < after.len() implies (#[trigger] after[i]).wf() by {
                crate::keyed::lemma_ascending_distinct(after);
                crate::keyed::lemma_contents_at::<Seq<char>, Layer>(after, i);
                if after[i].key() != layer.key() {
                    let k = after[i].key();
                    crate::keyed::lemma_contents_holds::<Seq<char>, Layer>(before, k);
                    let j = choose|j: int| 0 <= j < before.len() && (#[trigger] before[j]).key() == k;
                    crate::keyed::lemma_ascending_distinct(before);
                    crate::keyed::lemma_contents_at::<Seq<char>, Layer>(before, j);
                }
            }
            assert(models(after) =~= models(before).insert(layer.id@, layer.model()));
        }
        let snapshot: Snapshot = rebuild(&store.layers);
        publish(&mut store.published, Arc::new(snapshot));
    }
}

impl SceneStore {
    /// A store holds finitely many layers.
    pub proof fn lemma_finite(self)
        ensures
            self@.dom().finite(),
    {
        crate::keyed::lemma_contents_finite::<Seq<char>, Layer>(self.layers@);
        assert(self@.dom() =~= crate::keyed::contents::<Seq<char>, Layer>(self.layers@).dom());
    }
}

/// A commit replaces its own layer's contents wholesale and leaves every other layer as it was.
pub proof fn law_commit_replaces_only_its_layer(m: Layers, target: Seq<char>, staged: LayerModel)
    ensures
        m.insert(target, staged)[target] == staged,
        forall|l: Seq<char>|
            l != target ==> m.insert(target, staged).contains_key(l) == m.contains_key(l),
        forall|l: Seq<char>|
            l != target && m.contains_key(l) ==> #[trigger] m.insert(target, staged)[l] == m[l],
{
}

/// Of two commits to one layer only the later remains.
pub proof fn law_later_commit_supersedes(
    m: Layers,
    target: Seq<char>,
    first: LayerModel,
    second: LayerModel,
)
    ensures
        m.insert(target, first).insert(target, second) == m.insert(target, second),
{
    assert(m.insert(target, first).insert(target, second) =~= m.insert(target, second));
}

/// A non-empty finite set of names has a last one.
proof fn lemma_last_name(s: Set<Seq<char>>) -> (l: Seq<char>)
    requires
        s.finite(),
        s.len() > 0,
    ensures
        s.contains(l),
        forall|n: Seq<char>| #[trigger] s.contains(n) ==> !crate::text::precedes(l, n),
    decreases s.len(),
{
    let x = s.choose();
    let rest = s.remove(x);
    if rest.len() == 0 {
        assert forall|n: Seq<char>| #[trigger] s.contains(n) implies !crate::text::precedes(
            x,
            n,
        ) by {
            if n != x {
                assert(rest.contains(n));
            }
            crate::text::lemma_precedes_irreflexive(x);
        }
        x
    } else {
        let y = lemma_last_name(rest);
        if crate::text::precedes(y, x) {
            assert forall|n: Seq<char>| #[trigger] s.contains(n) implies !crate::text::precedes(
                x,
                n,
            ) by {
                if crate::text::precedes(x, n) {
                    crate::text::lemma_precedes_irreflexive(x);
                    crate::text::lemma_precedes_transitive(y, x, n);
                    assert(rest.contains(n));
                }
            }
            x
        } else {
            assert forall|n: Seq<char>| #[trigger] s.contains(n) implies !crate::text::precedes(
                y,
                n,
            ) by {
                if n != x {
                    assert(rest.contains(n));
                }
            }
            y
        }
    }
}

/// Where some layer declares an object, one of them is the last to do so.
pub proof fn law_declared_object_has_a_winner(m: Layers, id: Seq<char>)
    requires
        m.dom().finite(),
        object_declared(m, id),
    ensures
        exists|l: Seq<char>| object_winner(m, l, id),
{
    let s = m.dom().filter(|l: Seq<char>| m[l].objects.contains_key(id));
    let w = choose|l: Seq<char>| #[trigger] m.contains_key(l) && m[l].objects.contains_key(id);
    assert(s.contains(w));
    assert(s.finite()) by {
        vstd::set_lib::lemma_set_subset_finite(m.dom(), s);
    }
    assert(s.len() > 0) by {
        if s.len() == 0 {
            assert(s =~= Set::empty());
        }
    }
    let l = lemma_last_name(s);
    assert(object_winner(m, l, id)) by {
        assert forall|n: Seq<char>| #[trigger] m.contains_key(n) && crate::text::precedes(
            l,
            n,
        ) implies !m[n].objects.contains_key(id) by {
            if m[n].objects.contains_key(id) {
                assert(s.contains(n));
            }
        }
    }
}

/// What the layers hold determines the objects that a snapshot shows, and their order.
pub proof fn law_objects_shown_are_determined(a: Snapshot, b: Snapshot, m: Layers)
    requires
        m.dom().finite(),
        shows(a, m),
        shows(b, m),
    ensures
        a.object_seq() == b.object_seq(),
{
    let ca = crate::keyed::contents::<Seq<char>, Arc<SceneObject>>(a.object_seq());
    let cb = crate::keyed::contents::<Seq<char>, Arc<SceneObject>>(b.object_seq());
    assert forall|id: Seq<char>| #[trigger] ca.contains_key(id) implies ca[id] == cb[id] by {
        law_declared_object_has_a_winner(m, id);
        let l = choose|l: Seq<char>| object_winner(m, l, id);
        assert(object_winner(m, l, id));
    }
    assert forall|id: Seq<char>| ca.contains_key(id) == cb.contains_key(id) by {}
    assert(ca =~= cb);
    crate::keyed::lemma_ascending_unique(a.object_seq(), b.object_seq());
}

/// Where some layer declares a frame, one of them is the last to do so.
pub proof fn law_declared_frame_has_a_winner(m: Layers, uid: FrameKey)
    requires
        m.dom().finite(),
        frame_declared(m, uid),
    ensures
        exists|l: Seq<char>| frame_winner(m, l, uid),
{
    let s = m.dom().filter(|l: Seq<char>| m[l].frames.contains_key(uid));
    let w = choose|l: Seq<char>| #[trigger] m.contains_key(l) && m[l].frames.contains_key(uid);
    assert(s.contains(w));
    assert(s.finite()) by {
        vstd::set_lib::lemma_set_subset_finite(m.dom(), s);
    }
    assert(s.len() > 0) by {
        if s.len() == 0 {
            assert(s =~= Set::empty());
        }
    }
    let l = lemma_last_name(s);
    assert(frame_winner(m, l, uid)) by {
        assert forall|n: Seq<char>| #[trigger] m.contains_key(n) && crate::text::precedes(
            l,
            n,
        ) implies !m[n].frames.contains_key(uid) by {
            if m[n].frames.contains_key(uid) {
                assert(s.contains(n));
            }
        }
    }
}

/// A frame, found by its display name.
ghost struct Labelled {
    frame: Arc<FrameRecord>,
}

impl Keyed<Seq<char>> for Labelled {
    closed spec fn key(&self) -> Seq<char> {
        self.frame.uid@.label()
    }
}

/// No two frames have one display name.
pub open spec fn labels_differ(s: Seq<Arc<FrameRecord>>) -> bool {
    forall|i: int, j: int|
        0 <= i < j < s.len() ==> (#[trigger] s[i]).uid@.label() != (#[trigger] s[j]).uid@.label()
}

/// The frames, each found by its display name.
spec fn labelled(s: Seq<Arc<FrameRecord>>) -> Seq<Labelled> {
    s.map_values(|f: Arc<FrameRecord>| Labelled { frame: f })
}

/// Sorted frames whose display names differ ascend by display name.
proof fn lemma_labelled_ascending(s: Seq<Arc<FrameRecord>>)
    requires
        label_sorted(s),
        labels_differ(s),
    ensures
        crate::keyed::ascending(labelled(s)),
{
    let t = labelled(s);
    assert forall|i: int, j: int| 0 <= i < j < t.len() implies crate::text::precedes(
        (#[trigger] t[i]).key(),
        (#[trigger] t[j]).key(),
    ) by {
        let (x, y) = (s[i], s[j]);
        crate::text::lemma_precedes_total(x.uid@.label(), y.uid@.label());
    }
}

/// A frame of one list stands in every list with the same contents.
proof fn lemma_frame_in_both(a: Seq<Arc<FrameRecord>>, b: Seq<Arc<FrameRecord>>, i: int) -> (j: int)
    requires
        crate::keyed::distinct::<FrameKey, Arc<FrameRecord>>(a),
        crate::keyed::distinct::<FrameKey, Arc<FrameRecord>>(b),
        crate::keyed::contents::<FrameKey, Arc<FrameRecord>>(a)
            == crate::keyed::contents::<FrameKey, Arc<FrameRecord>>(b),
        0 <= i < a.len(),
    ensures
        0 <= j < b.len(),
        b[j] == a[i],
{
    crate::keyed::lemma_contents_at::<FrameKey, Arc<FrameRecord>>(a, i);
    crate::keyed::lemma_contents_holds::<FrameKey, Arc<FrameRecord>>(b, a[i].key());
    let j = choose|j: int| 0 <= j < b.len() && (#[trigger] b[j]).key() == a[i].key();
    crate::keyed::lemma_contents_at::<FrameKey, Arc<FrameRecord>>(b, j);
    j
}

/// Frames in the order of display names that differ are determined by their contents.
proof fn lemma_frame_order(a: Seq<Arc<FrameRecord>>, b: Seq<Arc<FrameRecord>>)
    requires
        crate::keyed::distinct::<FrameKey, Arc<FrameRecord>>(a),
        crate::keyed::distinct::<FrameKey, Arc<FrameRecord>>(b),
        crate::keyed::contents::<FrameKey, Arc<FrameRecord>>(a)
            == crate::keyed::contents::<FrameKey, Arc<FrameRecord>>(b),
        label_sorted(a),
        label_sorted(b),
        labels_differ(a),
    ensures
        a == b,
{
    assert(labels_differ(b)) by {
        assert forall|i: int, j: int| 0 <= i < j < b.len() implies (#[trigger] b[i]).uid@.label()
            != (#[trigger] b[j]).uid@.label() by {
            let p = lemma_frame_in_both(b, a, i);
            let q = lemma_frame_in_both(b, a, j);
            assert(b[i].key() != b[j].key());
            if p < q {
                assert(a[p].uid@.label() != a[q].uid@.label());
            } else {
                assert(a[q].uid@.label() != a[p].uid@.label());
            }
        }
    }
    let (ta, tb) = (labelled(a), labelled(b));
    lemma_labelled_ascending(a);
    lemma_labelled_ascending(b);
    crate::keyed::lemma_ascending_distinct(ta);
    crate::keyed::lemma_ascending_distinct(tb);
    let m = crate::keyed::contents::<Seq<char>, Labelled>(tb);
    assert forall|i: int| 0 <= i < ta.len() implies m.contains_key((#[trigger] ta[i]).key())
        && m[ta[i].key()] == ta[i] by {
        let j = lemma_frame_in_both(a, b, i);
        assert(tb[j] == ta[i]);
        crate::keyed::lemma_contents_at::<Seq<char>, Labelled>(tb, j);
    }
    assert forall|k: Seq<char>| m.contains_key(k) implies crate::keyed::holds::<
        Seq<char>,
        Labelled,
    >(ta, k) by {
        crate::keyed::lemma_contents_holds::<Seq<char>, Labelled>(tb, k);
        let j = choose|j: int| 0 <= j < tb.len() && (#[trigger] tb[j]).key() == k;
        let i = lemma_frame_in_both(b, a, j);
        assert(ta[i].key() == k);
    }
    crate::keyed::lemma_contents_is::<Seq<char>, Labelled>(ta, m);
    crate::keyed::lemma_ascending_unique(ta, tb);
    assert(a.len() == ta.len() && b.len() == tb.len());
    assert forall|i: int| 0 <= i < a.len() implies a[i] == b[i] by {
        assert(ta[i].frame == tb[i].frame);
    }
    assert(a =~= b);
}

/// What the layers hold determines which frames a snapshot shows, each one's record and, where
/// their display names differ, their order.
pub proof fn law_frames_shown_are_determined(a: Snapshot, b: Snapshot, m: Layers)
    requires
        m.dom().finite(),
        shows(a, m),
        shows(b, m),
    ensures
        crate::keyed::contents::<FrameKey, Arc<FrameRecord>>(a.frame_seq())
            == crate::keyed::contents::<FrameKey, Arc<FrameRecord>>(b.frame_seq()),
        labels_differ(a.frame_seq()) ==> a.frame_seq() == b.frame_seq(),
{
    let ca = crate::keyed::contents::<FrameKey, Arc<FrameRecord>>(a.frame_seq());
    let cb = crate::keyed::contents::<FrameKey, Arc<FrameRecord>>(b.frame_seq());
    assert forall|uid: FrameKey| #[trigger] ca.contains_key(uid) implies ca[uid] == cb[uid] by {
        law_declared_frame_has_a_winner(m, uid);
        let l = choose|l: Seq<char>| frame_winner(m, l, uid);
        assert(frame_winner(m, l, uid));
    }
    assert forall|uid: FrameKey| ca.contains_key(uid) == cb.contains_key(uid) by {}
    assert(ca =~= cb);
    a.lemma_wf();
    b.lemma_wf();
    if labels_differ(a.frame_seq()) {
        lemma_frame_order(a.frame_seq(), b.frame_seq());
    }
}

/// Every shape that a snapshot shows is that of an oblate or spherical body.
pub proof fn law_shapes_shown_are_oblate(snap: Snapshot, m: Layers, i: int)
    requires
        shows(snap, m),
        0 <= i < snap.object_seq().len(),
    ensures
        snap.object_seq()[i].shape matches Some(b) ==> oblate(b.ellipsoid.r_eq, b.ellipsoid.r_pol),
{
    snap.lemma_wf();
}

/// A layer whose objects and frames no other layer declares is shown as it was committed.
pub proof fn law_disjoint_layer_is_shown_whole(snap: Snapshot, m: Layers, l: Seq<char>)
    requires
        shows(snap, m),
        m.contains_key(l),
        forall|n: Seq<char>, id: Seq<char>|
            #![trigger m.contains_key(n), m[l].objects.contains_key(id)]
            n != l && m.contains_key(n) && m[l].objects.contains_key(id)
                ==> !m[n].objects.contains_key(id),
        forall|n: Seq<char>, uid: FrameKey|
            #![trigger m.contains_key(n), m[l].frames.contains_key(uid)]
            n != l && m.contains_key(n) && m[l].frames.contains_key(uid)
                ==> !m[n].frames.contains_key(uid),
    ensures
        forall|id: Seq<char>| #[trigger]
            m[l].objects.contains_key(id) ==> {
                let objects = crate::keyed::contents::<Seq<char>, Arc<SceneObject>>(
                    snap.object_seq(),
                );
                objects.contains_key(id) && objects[id] == m[l].objects[id]
            },
        forall|uid: FrameKey| #[trigger]
            m[l].frames.contains_key(uid) ==> {
                let frames = crate::keyed::contents::<FrameKey, Arc<FrameRecord>>(snap.frame_seq());
                frames.contains_key(uid) && frames[uid] == m[l].frames[uid]
            },
{
    crate::text::lemma_precedes_irreflexive(l);
    assert forall|id: Seq<char>| #[trigger] m[l].objects.contains_key(id) implies {
        let objects = crate::keyed::contents::<Seq<char>, Arc<SceneObject>>(snap.object_seq());
        objects.contains_key(id) && objects[id] == m[l].objects[id]
    } by {
        assert(object_declared(m, id));
        assert(object_winner(m, l, id));
    }
    assert forall|uid: FrameKey| #[trigger] m[l].frames.contains_key(uid) implies {
        let frames = crate::keyed::contents::<FrameKey, Arc<FrameRecord>>(snap.frame_seq());
        frames.contains_key(uid) && frames[uid] == m[l].frames[uid]
    } by {
        assert(frame_declared(m, uid));
        assert(frame_winner(m, l, uid));
    }
}

/// A snapshot's objects stand in the order of their ids, and its frames in that of their display
/// names.
pub proof fn law_snapshots_are_in_order(snap: Snapshot)
    requires
        snap.wf(),
    ensures
        forall|i: int, j: int|
            0 <= i < j < snap.object_seq().len() ==> crate::text::precedes(
                (#[trigger] snap.object_seq()[i]).id@,
                (#[trigger] snap.object_seq()[j]).id@,
            ),
        forall|i: int, j: int|
            0 <= i < j < snap.frame_seq().len() ==> !crate::text::precedes(
                (#[trigger] snap.frame_seq()[j]).uid@.label(),
                (#[trigger] snap.frame_seq()[i]).uid@.label(),
            ),
        forall|i: int, j: int|
            0 <= i < j < snap.frame_seq().len() ==> (#[trigger] snap.frame_seq()[i]).uid@ != (
            #[trigger] snap.frame_seq()[j]).uid@,
{
    snap.lemma_wf();
    let (objects, frames) = (snap.object_seq(), snap.frame_seq());
    assert forall|i: int, j: int| 0 <= i < j < objects.len() implies crate::text::precedes(
        (#[trigger] objects[i]).id@,
        (#[trigger] objects[j]).id@,
    ) by {
        assert(crate::text::precedes(objects[i].key(), objects[j].key()));
    }
    assert forall|i: int, j: int| 0 <= i < j < frames.len() implies (#[trigger] frames[i]).uid@ != (
    #[trigger] frames[j]).uid@ by {
        assert(frames[i].key() != frames[j].key());
    }
}

/// Of several layers that declare one object, the one whose name comes last is shown, and no
/// other: every layer that declares it either is that one or has a name that comes before.
pub proof fn law_last_layer_wins_an_object(snap: Snapshot, m: Layers, last: Seq<char>, id: Seq<char>)
    requires
        shows(snap, m),
        m.contains_key(last),
        m[last].objects.contains_key(id),
        forall|n: Seq<char>| #[trigger]
            m.contains_key(n) && m[n].objects.contains_key(id) && n != last
                ==> crate::text::precedes(n, last),
    ensures
        exists|k: int|
            0 <= k < snap.object_seq().len() && (#[trigger] snap.object_seq()[k]).id@ == id,
        forall|k: int|
            0 <= k < snap.object_seq().len() && (#[trigger] snap.object_seq()[k]).id@ == id
                ==> snap.object_seq()[k] == m[last].objects[id],
{
    let objects = snap.object_seq();
    snap.lemma_wf();
    crate::keyed::lemma_ascending_distinct(objects);
    assert(object_declared(m, id));
    assert(object_winner(m, last, id)) by {
        assert forall|n: Seq<char>| #[trigger]
            m.contains_key(n) && crate::text::precedes(last, n) implies !m[n].objects.contains_key(
            id,
        ) by {
            crate::text::lemma_precedes_irreflexive(last);
            crate::text::lemma_precedes_asymmetric(n, last);
        }
    }
    crate::keyed::lemma_contents_holds::<Seq<char>, Arc<SceneObject>>(objects, id);
    let k = choose|k: int| 0 <= k < objects.len() && (#[trigger] objects[k]).key() == id;
    assert(objects[k].id@ == id);
    assert forall|k: int| 0 <= k < objects.len() && (#[trigger] objects[k]).id@ == id implies
        objects[k] == m[last].objects[id] by {
        crate::keyed::lemma_contents_at::<Seq<char>, Arc<SceneObject>>(objects, k);
    }
}

/// Of several layers that declare one frame, the one whose name comes last is shown, and no other.
pub proof fn law_last_layer_wins_a_frame(snap: Snapshot, m: Layers, last: Seq<char>, uid: FrameKey)
    requires
        shows(snap, m),
        m.contains_key(last),
        m[last].frames.contains_key(uid),
        forall|n: Seq<char>| #[trigger]
            m.contains_key(n) && m[n].frames.contains_key(uid) && n != last
                ==> crate::text::precedes(n, last),
    ensures
        exists|k: int|
            0 <= k < snap.frame_seq().len() && (#[trigger] snap.frame_seq()[k]).uid@ == uid,
        forall|k: int|
            0 <= k < snap.frame_seq().len() && (#[trigger] snap.frame_seq()[k]).uid@ == uid
                ==> snap.frame_seq()[k] == m[last].frames[uid],
{
    let frames = snap.frame_seq();
    snap.lemma_wf();
    assert(frame_declared(m, uid));
    assert(frame_winner(m, last, uid)) by {
        assert forall|n: Seq<char>| #[trigger]
            m.contains_key(n) && crate::text::precedes(last, n) implies !m[n].frames.contains_key(
            uid,
        ) by {
            crate::text::lemma_precedes_irreflexive(last);
            crate::text::lemma_precedes_asymmetric(n, last);
        }
    }
    crate::keyed::lemma_contents_holds::<FrameKey, Arc<FrameRecord>>(frames, uid);
    let k = choose|k: int| 0 <= k < frames.len() && (#[trigger] frames[k]).key() == uid;
    assert(frames[k].uid@ == uid);
    assert forall|k: int| 0 <= k < frames.len() && (#[trigger] frames[k]).uid@ == uid implies
        frames[k] == m[last].frames[uid] by {
        crate::keyed::lemma_contents_at::<FrameKey, Arc<FrameRecord>>(frames, k);
    }
}

/// Nothing is shown that no layer declares, and each layer's epoch is told as it was committed.
pub proof fn law_snapshots_show_only_what_was_committed(snap: Snapshot, m: Layers, k: int)
    requires
        shows(snap, m),
        m.dom().finite(),
    ensures
        0 <= k < snap.object_seq().len() ==> exists|l: Seq<char>| #[trigger]
            m.contains_key(l) && m[l].objects.contains_key(snap.object_seq()[k].id@)
                && m[l].objects[snap.object_seq()[k].id@] == snap.object_seq()[k],
        0 <= k < snap.frame_seq().len() ==> exists|l: Seq<char>| #[trigger]
            m.contains_key(l) && m[l].frames.contains_key(snap.frame_seq()[k].uid@)
                && m[l].frames[snap.frame_seq()[k].uid@] == snap.frame_seq()[k],
        forall|l: Seq<char>, e: Epoch| #[trigger]
            m.contains_key(l) && m[l].epoch == Some(e) ==> snap.epoch_map().contains_key(l)
                && #[trigger] same_epoch(snap.epoch_map()[l], e),
        forall|l: Seq<char>| #[trigger]
            snap.epoch_map().contains_key(l) ==> m.contains_key(l) && m[l].epoch is Some,
{
    snap.lemma_wf();
    let (objects, frames) = (snap.object_seq(), snap.frame_seq());
    if 0 <= k < objects.len() {
        let id = objects[k].id@;
        crate::keyed::lemma_ascending_distinct(objects);
        crate::keyed::lemma_contents_at::<Seq<char>, Arc<SceneObject>>(objects, k);
        assert(objects[k].key() == id);
        law_declared_object_has_a_winner(m, id);
        let l = choose|l: Seq<char>| object_winner(m, l, id);
        assert(object_winner(m, l, id));
        assert(m.contains_key(l) && m[l].objects[id] == objects[k]);
    }
    if 0 <= k < frames.len() {
        let uid = frames[k].uid@;
        crate::keyed::lemma_contents_at::<FrameKey, Arc<FrameRecord>>(frames, k);
        assert(frames[k].key() == uid);
        law_declared_frame_has_a_winner(m, uid);
        let l = choose|l: Seq<char>| frame_winner(m, l, uid);
        assert(frame_winner(m, l, uid));
        assert(m.contains_key(l) && m[l].frames[uid] == frames[k]);
    }
    assert forall|l: Seq<char>, e: Epoch| #[trigger]
        m.contains_key(l) && m[l].epoch == Some(e) implies snap.epoch_map().contains_key(l)
        && #[trigger] same_epoch(snap.epoch_map()[l], e) by {
        assert(snap.epoch_map().contains_key(l));
    }
}

/// The two epochs are at the same number of seconds.
pub open spec fn same_epoch(a: Epoch, b: Epoch) -> bool {
    a.secs() == b.secs()
}

/// A shape is possible exactly when its radii are above zero and the polar one is no larger.
pub proof fn law_possible_shapes(r_eq: Binary64, r_pol: Binary64)
    ensures
        oblate(r_eq, r_pol) <==> crate::binary64::finite(r_eq) && crate::binary64::finite(r_pol) && 0
            < crate::binary64::scaled(r_pol) <= crate::binary64::scaled(r_eq),
{
    let zero = Binary64 { bits: 0 };
    crate::binary64::lemma_one();
    if crate::binary64::finite(r_eq) && crate::binary64::finite(r_pol) {
        crate::binary64::law_rank_orders_values(zero, r_eq);
        crate::binary64::law_rank_orders_values(zero, r_pol);
        crate::binary64::law_rank_orders_values(r_pol, r_eq);
    }
}

/// At rest, nothing is displaced, moves or is turned.
pub proof fn law_rest_is_the_origin()
    ensures
        ({
            let (p, v) = (rest().position, rest().velocity);
            &&& crate::binary64::scaled(p.x) == 0 && crate::binary64::scaled(p.y) == 0
                && crate::binary64::scaled(p.z) == 0
            &&& crate::binary64::scaled(v.x) == 0 && crate::binary64::scaled(v.y) == 0
                && crate::binary64::scaled(v.z) == 0
            &&& rest().attitude matches Attitude::Quat { x, y, z, w } && crate::binary64::scaled(x)
                == 0 && crate::binary64::scaled(y) == 0 && crate::binary64::scaled(z) == 0
                && crate::binary64::scaled(w) == vstd::arithmetic::power2::pow2(1074)
        }),
{
    crate::binary64::lemma_one();
}

} // verus!
