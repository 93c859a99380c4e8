//! Identities: object and layer names, and the identities of reference frames.
//!
//! A [`FrameUid`] holds in plain fields what `astrodyn_quantities::FrameUid` holds: the
//! namespace, the frame's class and role, and its instance tag. Two frames are the same frame
//! exactly when all four agree.

use std::sync::Arc;
use astrodyn_quantities::{FrameClass as C, FrameRole as R, Namespace, Tag};
use vstd::prelude::*;
use crate::text::{compare, TextOrder};

verus! {

/// Stable id of a scene object, as declared by a producer (e.g. `"lander"`).
#[derive(Debug, PartialEq, Eq, PartialOrd, Ord, Hash)]
pub struct ObjectId {
    text: Arc<String>,
}

/// Name of a producer layer (e.g. `"sim"`, `"ephemeris"`, `"telemetry"`).
#[derive(Debug, PartialEq, Eq, PartialOrd, Ord, Hash)]
pub struct LayerId {
    text: Arc<String>,
}

impl View for ObjectId {
    type V = Seq<char>;

    closed spec fn view(&self) -> Seq<char> {
        self.text@
    }
}

impl View for LayerId {
    type V = Seq<char>;

    closed spec fn view(&self) -> Seq<char> {
        self.text@
    }
}

impl Clone for ObjectId {
    fn clone(&self) -> (r: Self)
        ensures
            r == *self,
    {
        ObjectId { text: self.text.clone() }
    }
}

impl Clone for LayerId {
    fn clone(&self) -> (r: Self)
        ensures
            r == *self,
    {
        LayerId { text: self.text.clone() }
    }
}

impl ObjectId {
    /// The id spelled `s`.
    pub fn new(s: &str) -> (r: Self)
        ensures
            r@ == s@,
    {
        ObjectId { text: Arc::new(s.to_owned()) }
    }

    /// The id as a string slice.
    pub fn as_str(&self) -> (r: &str)
        ensures
            r@ == self@,
    {
        self.text.as_str()
    }

    /// Whether the two ids are spelled alike.
    pub fn same(&self, other: &ObjectId) -> (r: bool)
        ensures
            r == (self@ == other@),
    {
        *self.text == *other.text
    }

    /// How this id stands to another.
    pub fn order(&self, other: &ObjectId) -> (r: TextOrder)
        ensures
            r is Before <==> crate::text::precedes(self@, other@),
            r is Same <==> self@ == other@,
            r is After <==> crate::text::precedes(other@, self@),
    {
        compare(self.text.as_str(), other.text.as_str())
    }
}

impl LayerId {
    /// The layer named `s`.
    pub fn new(s: &str) -> (r: Self)
        ensures
            r@ == s@,
    {
        LayerId { text: Arc::new(s.to_owned()) }
    }

    /// The name as a string slice.
    pub fn as_str(&self) -> (r: &str)
        ensures
            r@ == self@,
    {
        self.text.as_str()
    }

    /// How this name stands to another.
    pub fn order(&self, other: &LayerId) -> (r: TextOrder)
        ensures
            r is Before <==> crate::text::precedes(self@, other@),
            r is Same <==> self@ == other@,
            r is After <==> crate::text::precedes(other@, self@),
    {
        compare(self.text.as_str(), other.text.as_str())
    }
}

impl From<&str> for ObjectId {
    fn from(s: &str) -> (r: Self)
        ensures
            r@ == s@,
    {
        ObjectId::new(s)
    }
}

impl vstd::std_specs::convert::FromSpecImpl<&str> for ObjectId {
    open spec fn obeys_from_spec() -> bool {
        false
    }

    open spec fn from_spec(s: &str) -> Self {
        arbitrary()
    }
}

impl From<String> for ObjectId {
    fn from(s: String) -> (r: Self)
        ensures
            r@ == s@,
    {
        ObjectId { text: Arc::new(s) }
    }
}

impl vstd::std_specs::convert::FromSpecImpl<String> for ObjectId {
    open spec fn obeys_from_spec() -> bool {
        false
    }

    open spec fn from_spec(s: String) -> Self {
        arbitrary()
    }
}

impl From<&str> for LayerId {
    fn from(s: &str) -> (r: Self)
        ensures
            r@ == s@,
    {
        LayerId::new(s)
    }
}

impl vstd::std_specs::convert::FromSpecImpl<&str> for LayerId {
    open spec fn obeys_from_spec() -> bool {
        false
    }

    open spec fn from_spec(s: &str) -> Self {
        arbitrary()
    }
}

impl From<String> for LayerId {
    fn from(s: String) -> (r: Self)
        ensures
            r@ == s@,
    {
        LayerId { text: Arc::new(s) }
    }
}

impl vstd::std_specs::convert::FromSpecImpl<String> for LayerId {
    open spec fn obeys_from_spec() -> bool {
        false
    }

    open spec fn from_spec(s: String) -> Self {
        arbitrary()
    }
}

/// What kind of reference frame an identity names.
#[derive(Clone, Copy, Debug, PartialEq, Eq, Hash, Structural)]
pub enum FrameClass {
    /// The simulation's root inertial node.
    RootInertial,
    /// A planet's inertial (non-rotating) frame.
    PlanetInertial,
    /// A barycenter's inertial frame.
    BarycenterInertial,
    /// A planet-fixed (co-rotating) frame.
    PlanetFixed,
    /// A site-anchored topocentric frame.
    Topocentric,
    /// A vehicle body or structural frame.
    Body,
    /// An orbit-relative derived frame.
    OrbitRelative,
    /// An externally supplied frame.
    External,
}

/// The role of a frame within its class.
#[derive(Debug, PartialEq, Eq, Hash)]
pub enum FrameRole {
    /// The primary frame of its class.
    Primary,
    /// Alternate inertial labelling.
    AltInertial,
    /// Alternate planet-fixed labelling.
    AltPfix,
    /// The core body of a vehicle.
    CoreBody,
    /// The composite body of a vehicle.
    CompositeBody,
    /// The structural frame of a vehicle.
    Structure,
    /// A point on a vehicle.
    VehiclePoint,
    /// Local vertical, local horizontal.
    Lvlh,
    /// North, east, down.
    Ned,
    /// A role named by the caller.
    Custom(String),
}

/// The identity of a reference frame.
#[derive(Debug, PartialEq, Eq, Hash)]
pub struct FrameUid {
    /// Identity-space discriminator; 0 is reserved for identities derived from frame types.
    pub namespace: u16,
    /// The frame's class.
    pub class: FrameClass,
    /// The role within the class.
    pub role: FrameRole,
    /// The instance (planet, vehicle or site) where the class has several.
    pub tag: Option<String>,
}

/// A frame identity as a mathematical value: equal exactly when the identities are.
pub struct FrameKey {
    pub namespace: u16,
    pub class: u8,
    pub role: u8,
    pub custom: Seq<char>,
    pub tag: Option<Seq<char>>,
}

/// The characters of an optional text.
pub open spec fn tag_text(tag: Option<&str>) -> Option<Seq<char>> {
    match tag {
        Some(t) => Some(t@),
        None => None,
    }
}

/// The end of the display name of an identity: that of its role, or of its class where the role
/// is the primary one.
pub open spec fn display_suffix(class: u8, role: u8, custom: Seq<char>) -> Seq<char> {
    match role {
        0 => match class {
            3 => "pfix"@,
            4 => "topo"@,
            5 => "body"@,
            6 => "orbit_relative"@,
            7 => "external"@,
            _ => "inertial"@,
        },
        1 => "inertial.alt"@,
        2 => "pfix.alt"@,
        3 => "core_body"@,
        4 => "composite_body"@,
        5 => "structural"@,
        6 => "point"@,
        7 => "lvlh"@,
        8 => "ned"@,
        _ => custom,
    }
}

/// The display name of an identity: `ns`, the number of its namespace and a colon unless that is
/// 0, then its tag and a dot where it has one, then the suffix.
pub open spec fn uid_display(
    namespace: u16,
    class: u8,
    role: u8,
    custom: Seq<char>,
    tag: Option<Seq<char>>,
) -> Seq<char> {
    let space = if namespace == 0 {
        Seq::empty()
    } else {
        "ns"@ + crate::message::decimal(namespace as nat) + ":"@
    };
    let instance = match tag {
        Some(t) => t + "."@,
        None => Seq::empty(),
    };
    space + instance + display_suffix(class, role, custom)
}

impl FrameKey {
    /// The display name of the identity.
    pub open spec fn label(self) -> Seq<char> {
        uid_display(self.namespace, self.class, self.role, self.custom, self.tag)
    }
}

/// `Display` of `astrodyn_quantities::FrameUid`, on the identity with the given components:
/// class and role by their place in the order in which that crate declares them, with `custom`
/// the text of a caller-named role. The text is the namespace's prefix, the tag and the suffix of
/// the role or class.
#[verifier::external_body]
fn display_uid(namespace: u16, class: u8, role: u8, custom: &str, tag: Option<&str>) -> (r: String)
    requires
        class < 8,
        role < 10,
    ensures
        r@ == uid_display(namespace, class, role, custom@, tag_text(tag)),
{
    let classes = [
        C::RootInertial, C::PlanetInertial, C::BarycenterInertial, C::PlanetFixed,
        C::Topocentric, C::Body, C::OrbitRelative, C::External,
    ];
    let roles = [
        R::Primary, R::AltInertial, R::AltPfix, R::CoreBody, R::CompositeBody, R::Structure,
        R::VehiclePoint, R::Lvlh, R::Ned, R::Custom(custom.into()),
    ];
    let (class, role) = (classes[class as usize], roles[role as usize].clone());
    let tag = tag.map_or(Tag::None, |t| Tag::Named(t.into()));
    astrodyn_quantities::FrameUid { namespace: Namespace(namespace), class, role, tag }.to_string()
}

/// `FrameClass::may_be_root_or_integ` of `astrodyn_quantities`, on the class at place `class` in
/// the order in which that crate declares them: true of the three inertial classes, which come
/// first, and of no other.
#[verifier::external_body]
fn class_may_be_root(class: u8) -> (r: bool)
    requires
        class < 8,
    ensures
        r == (class < 3),
{
    let classes = [
        C::RootInertial, C::PlanetInertial, C::BarycenterInertial, C::PlanetFixed,
        C::Topocentric, C::Body, C::OrbitRelative, C::External,
    ];
    classes[class as usize].may_be_root_or_integ()
}

/// `topocentric_site_frame_uid` of `astrodyn_quantities`: the namespace and the tag that it
/// mints for a site on a planet. Every such identity lies in namespace 1, with the tag made of
/// the planet's name, `/site:` and the site's key.
#[verifier::external_body]
fn mint_site(planet: &str, site: &str) -> (r: (u16, String))
    ensures
        r.0 == 1,
        r.1@ == planet@ + "/site:"@ + site@,
{
    let uid = astrodyn_quantities::frame_identity::topocentric_site_frame_uid(planet, site);
    let tag = match uid.tag {
        Tag::Named(name) => String::from(name),
        Tag::None => String::new(),
    };
    (uid.namespace.0, tag)
}

impl FrameClass {
    /// The class's place in the order of declaration.
    pub open spec fn place(self) -> u8 {
        match self {
            FrameClass::RootInertial => 0,
            FrameClass::PlanetInertial => 1,
            FrameClass::BarycenterInertial => 2,
            FrameClass::PlanetFixed => 3,
            FrameClass::Topocentric => 4,
            FrameClass::Body => 5,
            FrameClass::OrbitRelative => 6,
            FrameClass::External => 7,
        }
    }

    /// The class's place in the order of declaration.
    pub fn code(self) -> (r: u8)
        ensures
            r == self.place(),
            r < 8,
    {
        match self {
            FrameClass::RootInertial => 0,
            FrameClass::PlanetInertial => 1,
            FrameClass::BarycenterInertial => 2,
            FrameClass::PlanetFixed => 3,
            FrameClass::Topocentric => 4,
            FrameClass::Body => 5,
            FrameClass::OrbitRelative => 6,
            FrameClass::External => 7,
        }
    }

    /// The class at a place in the order of declaration.
    pub fn at(code: u8) -> (r: FrameClass)
        requires
            code < 8,
        ensures
            r.place() == code,
    {
        match code {
            0 => FrameClass::RootInertial,
            1 => FrameClass::PlanetInertial,
            2 => FrameClass::BarycenterInertial,
            3 => FrameClass::PlanetFixed,
            4 => FrameClass::Topocentric,
            5 => FrameClass::Body,
            6 => FrameClass::OrbitRelative,
            _ => FrameClass::External,
        }
    }

    /// The inertial classes: the only ones that may root a tree of frames.
    pub open spec fn inertial(self) -> bool {
        self is RootInertial || self is PlanetInertial || self is BarycenterInertial
    }

    /// Whether a frame of this class may be the root of a tree of frames.
    pub fn may_be_root(self) -> (r: bool)
        ensures
            r == self.inertial(),
    {
        class_may_be_root(self.code())
    }
}

impl FrameRole {
    /// The role's place in the order of declaration.
    pub open spec fn place(self) -> u8 {
        match self {
            FrameRole::Primary => 0,
            FrameRole::AltInertial => 1,
            FrameRole::AltPfix => 2,
            FrameRole::CoreBody => 3,
            FrameRole::CompositeBody => 4,
            FrameRole::Structure => 5,
            FrameRole::VehiclePoint => 6,
            FrameRole::Lvlh => 7,
            FrameRole::Ned => 8,
            FrameRole::Custom(_) => 9,
        }
    }

    /// The text of a caller-named role; empty for the others.
    pub open spec fn custom_text(self) -> Seq<char> {
        match self {
            FrameRole::Custom(s) => s@,
            _ => Seq::empty(),
        }
    }

    /// The role's place in the order of declaration.
    pub fn code(&self) -> (r: u8)
        ensures
            r == self.place(),
            r < 10,
    {
        match self {
            FrameRole::Primary => 0,
            FrameRole::AltInertial => 1,
            FrameRole::AltPfix => 2,
            FrameRole::CoreBody => 3,
            FrameRole::CompositeBody => 4,
            FrameRole::Structure => 5,
            FrameRole::VehiclePoint => 6,
            FrameRole::Lvlh => 7,
            FrameRole::Ned => 8,
            FrameRole::Custom(_) => 9,
        }
    }

    /// The text of a caller-named role; empty for the others.
    pub fn custom(&self) -> (r: &str)
        ensures
            r@ == self.custom_text(),
    {
        proof {
            reveal_strlit("");
        }
        match self {
            FrameRole::Custom(s) => s.as_str(),
            _ => {
                assert(""@ =~= Seq::<char>::empty());
                ""
            },
        }
    }
}

impl Clone for FrameRole {
    fn clone(&self) -> (r: Self)
        ensures
            r == *self,
    {
        match self {
            FrameRole::Primary => FrameRole::Primary,
            FrameRole::AltInertial => FrameRole::AltInertial,
            FrameRole::AltPfix => FrameRole::AltPfix,
            FrameRole::CoreBody => FrameRole::CoreBody,
            FrameRole::CompositeBody => FrameRole::CompositeBody,
            FrameRole::Structure => FrameRole::Structure,
            FrameRole::VehiclePoint => FrameRole::VehiclePoint,
            FrameRole::Lvlh => FrameRole::Lvlh,
            FrameRole::Ned => FrameRole::Ned,
            FrameRole::Custom(s) => FrameRole::Custom(s.clone()),
        }
    }
}

impl View for FrameUid {
    type V = FrameKey;

    open spec fn view(&self) -> FrameKey {
        FrameKey {
            namespace: self.namespace,
            class: self.class.place(),
            role: self.role.place(),
            custom: self.role.custom_text(),
            tag: match self.tag {
                Some(t) => Some(t@),
                None => None,
            },
        }
    }
}

impl Clone for FrameUid {
    fn clone(&self) -> (r: Self)
        ensures
            r == *self,
    {
        FrameUid {
            namespace: self.namespace,
            class: self.class,
            role: self.role.clone(),
            tag: match &self.tag {
                Some(t) => Some(t.clone()),
                None => None,
            },
        }
    }
}

impl FrameUid {
    /// Whether the two identities name the same frame.
    pub fn same(&self, other: &FrameUid) -> (r: bool)
        ensures
            r == (self@ == other@),
    {
        let tags_agree: bool = match (&self.tag, &other.tag) {
            (Some(a), Some(b)) => *a == *b,
            (None, None) => true,
            _ => false,
        };
        self.namespace == other.namespace && self.class.code() == other.class.code()
            && self.role.code() == other.role.code() && matches!(
            compare(self.role.custom(), other.role.custom()),
            TextOrder::Same
        ) && tags_agree
    }

    /// The identity's display name, for people: it orders frames and names them in messages,
    /// but never decides whether two frames are the same.
    pub fn label(&self) -> (r: String)
        ensures
            r@ == self@.label(),
    {
        let tag: Option<&str> = match &self.tag {
            Some(t) => Some(t.as_str()),
            None => None,
        };
        display_uid(
            self.namespace,
            self.class.code(),
            self.role.code(),
            self.role.custom(),
            tag,
        )
    }

    /// The identity of a topocentric frame anchored at `site` on `planet`.
    pub fn topocentric_site(planet: &str, site: &str) -> (r: FrameUid)
        ensures
            r.namespace == 1,
            r.class is Topocentric,
            r.role is Primary,
            r@ == site_key(planet@, site@),
    {
        let (namespace, tag): (u16, String) = mint_site(planet, site);
        FrameUid { namespace, class: FrameClass::Topocentric, role: FrameRole::Primary, tag: Some(tag) }
    }
}

/// The identity of a topocentric frame anchored at `site` on `planet`.
pub open spec fn site_key(planet: Seq<char>, site: Seq<char>) -> FrameKey {
    FrameKey {
        namespace: 1,
        class: FrameClass::Topocentric.place(),
        role: FrameRole::Primary.place(),
        custom: Seq::empty(),
        tag: Some(planet + "/site:"@ + site),
    }
}

/// Two sites on one planet have different identities, and none has that of the planet's own
/// topocentric frame type.
pub proof fn law_sites_stay_apart(planet: Seq<char>, a: Seq<char>, b: Seq<char>)
    requires
        a != b,
    ensures
        site_key(planet, a) != site_key(planet, b),
        site_key(planet, a).namespace != 0,
{
    let x = planet + "/site:"@;
    if x + a == x + b {
        assert(a =~= (x + a).skip(x.len() as int));
        assert(b =~= (x + b).skip(x.len() as int));
    }
}

/// Two identities are the same frame exactly when all four of their parts agree: namespace, class,
/// role (a caller-named one by its text) and tag.
pub proof fn law_identity_is_all_four_parts(a: FrameUid, b: FrameUid)
    ensures
        a@ == b@ <==> {
            &&& a.namespace == b.namespace
            &&& a.class == b.class
            &&& match (a.role, b.role) {
                (FrameRole::Custom(s), FrameRole::Custom(t)) => s@ == t@,
                (FrameRole::Custom(_), _) => false,
                (_, FrameRole::Custom(_)) => false,
                _ => a.role == b.role,
            }
            &&& match (a.tag, b.tag) {
                (Some(s), Some(t)) => s@ == t@,
                (None, None) => true,
                _ => false,
            }
        },
{
}

/// A site's frame is named by its planet and its own key: the tag begins with the one, ends with
/// the other, and has `/site:` between.
pub proof fn law_site_tags_name_planet_and_site(planet: Seq<char>, site: Seq<char>)
    ensures
        site_key(planet, site).tag matches Some(t) && t.len() == planet.len() + 6 + site.len()
            && t.take(planet.len() as int) == planet && t.skip(planet.len() as int + 6) == site
            && t.subrange(planet.len() as int, planet.len() as int + 6) == "/site:"@,
        site_key(planet, site).namespace == 1,
{
    reveal_strlit("/site:");
    let t = planet + "/site:"@ + site;
    assert(t.take(planet.len() as int) =~= planet);
    assert(t.skip(planet.len() as int + 6) =~= site);
    assert(t.subrange(planet.len() as int, planet.len() as int + 6) =~= "/site:"@);
}

} // verus!
