//! Level of detail by angular size, with hysteresis.

use vstd::prelude::*;
use vstd::arithmetic::power2::pow2;
use crate::binary64::Binary64;
use crate::ident::ObjectId;
use crate::keyed::{find, put, Keyed, TextKeyed};

verus! {

/// Which on-screen representation a body draws at, chosen by angular size.
#[derive(Clone, Copy, Debug, PartialEq, Eq, Structural)]
pub enum Lod {
    /// Sub-resolution: a single sub-cell point.
    Point,
    /// Resolvable: a filled ellipse silhouette.
    Ellipsoid,
}

/// A point becomes an ellipsoid once its on-screen equatorial radius reaches 1.5 cells.
pub const LOD_GROW_CELLS: u64 = 0x3FF8_0000_0000_0000;

/// An ellipsoid becomes a point once it shrinks below 0.75 cells. The gap between the two is the
/// hysteresis band: a body whose size jitters across a boundary keeps its representation.
pub const LOD_SHRINK_CELLS: u64 = 0x3FE8_0000_0000_0000;

/// The middle of the band, 1.125 cells: where a body seen for the first time is classified.
pub const LOD_FIRST_CELLS: u64 = 0x3FF2_0000_0000_0000;

/// The representation for an on-screen radius, given the previous frame's.
pub open spec fn chosen(prev: Option<Lod>, radius: Binary64) -> Lod {
    let ellipsoid = match prev {
        Some(Lod::Ellipsoid) => !crate::binary64::less(
            radius,
            Binary64 { bits: LOD_SHRINK_CELLS },
        ),
        Some(Lod::Point) => crate::binary64::at_most(Binary64 { bits: LOD_GROW_CELLS }, radius),
        None => crate::binary64::at_most(Binary64 { bits: LOD_FIRST_CELLS }, radius),
    };
    if ellipsoid {
        Lod::Ellipsoid
    } else {
        Lod::Point
    }
}

#[derive(Debug)]
struct LodEntry {
    id: ObjectId,
    lod: Lod,
}

impl Keyed<Seq<char>> for LodEntry {
    closed spec fn key(&self) -> Seq<char> {
        self.id@
    }
}

impl TextKeyed for LodEntry {
    fn key_text(&self) -> (r: &str) {
        self.id.as_str()
    }
}

/// Per-object memory of the level of detail across frames: the hysteresis state. It belongs to
/// one live view; two views of one scene keep their own.
#[derive(Debug)]
pub struct LodMemory {
    /// Ascending by id.
    entries: Vec<LodEntry>,
}

impl View for LodMemory {
    type V = Map<Seq<char>, Lod>;

    closed spec fn view(&self) -> Map<Seq<char>, Lod> {
        crate::keyed::contents::<Seq<char>, LodEntry>(self.entries@).map_values(
            |e: LodEntry| e.lod,
        )
    }
}

/// What a memory holds for an id.
pub open spec fn remembered(m: Map<Seq<char>, Lod>, id: Seq<char>) -> Option<Lod> {
    if m.contains_key(id) {
        Some(m[id])
    } else {
        None
    }
}

/// The ids in a vector.
pub open spec fn id_set(ids: Seq<ObjectId>) -> Set<Seq<char>> {
    Set::new(|k: Seq<char>| exists|i: int| 0 <= i < ids.len() && (#[trigger] ids[i])@ == k)
}

impl LodMemory {
    /// No id is remembered twice.
    pub closed spec fn wf(self) -> bool {
        crate::keyed::ascending(self.entries@)
    }

    /// An empty memory: every body is classified fresh on the first frame.
    pub fn new() -> (r: Self)
        ensures
            r.wf(),
            r@ == Map::<Seq<char>, Lod>::empty(),
    {
        let r: LodMemory = LodMemory { entries: Vec::new() };
        assert(r@ =~= Map::<Seq<char>, Lod>::empty());
        r
    }

    /// Choose this frame's representation for `id` from its on-screen radius and the previous
    /// frame's choice, and remember it.
    pub fn select(&mut self, id: &ObjectId, screen_radius: Binary64) -> (r: Lod)
        requires
            old(self).wf(),
        ensures
            final(self).wf(),
            r == chosen(remembered(old(self)@, id@), screen_radius),
            final(self)@ == old(self)@.insert(id@, r),
    {
        let prev: Option<Lod> = match find(&self.entries, id.as_str()) {
            Some(i) => Some(self.entries[i].lod),
            None => None,
        };
        let ellipsoid: bool = match prev {
            Some(Lod::Ellipsoid) => !screen_radius.lt(Binary64::from_bits(LOD_SHRINK_CELLS)),
            Some(Lod::Point) => Binary64::from_bits(LOD_GROW_CELLS).le(screen_radius),
            None => Binary64::from_bits(LOD_FIRST_CELLS).le(screen_radius),
        };
        let next: Lod = if ellipsoid {
            Lod::Ellipsoid
        } else {
            Lod::Point
        };
        put(&mut self.entries, LodEntry { id: id.clone(), lod: next });
        assert(self@ =~= old(self)@.insert(id@, next));
        next
    }

    /// Forget the ids not seen this frame, so that a body that was removed or culled neither
    /// leaks memory nor resurrects a stale choice.
    pub fn retain_seen(&mut self, seen: &Vec<ObjectId>)
        requires
            old(self).wf(),
        ensures
            final(self).wf(),
            final(self)@ == old(self)@.restrict(id_set(seen@)),
            forall|id: Seq<char>| #[trigger]
                final(self)@.contains_key(id) <==> old(self)@.contains_key(id) && exists|i: int|
                    0 <= i < seen@.len() && (#[trigger] seen@[i])@ == id,
            forall|id: Seq<char>| #[trigger]
                final(self)@.contains_key(id) ==> final(self)@[id] == old(self)@[id],
    {
        let ghost s = self.entries@;
        let mut kept: Vec<LodEntry> = Vec::new();
        let mut i: usize = 0;
        assert(s.take(0) =~= Seq::empty());
        proof {
            assert(crate::keyed::contents::<Seq<char>, LodEntry>(kept@)
                =~= crate::keyed::contents::<Seq<char>, LodEntry>(s.take(0)).restrict(
                id_set(seen@),
            ));
        }
        while i < self.entries.len()
            invariant
                s == self.entries@,
                i <= s.len(),
                crate::keyed::ascending(s),
                crate::keyed::ascending(kept@),
                i < s.len() ==> forall|k: int|
                    0 <= k < kept@.len() ==> crate::text::precedes(
                        (#[trigger] kept@[k]).id@,
                        s[i as int].id@,
                    ),
                crate::keyed::contents::<Seq<char>, LodEntry>(kept@)
                    == crate::keyed::contents::<Seq<char>, LodEntry>(s.take(i as int)).restrict(
                    id_set(seen@),
                ),
            decreases s.len() - i,
        {
            let ghost kept0 = kept@;
            let entry: &LodEntry = &self.entries[i];
            if contains_id(seen, &entry.id) {
                kept.push(LodEntry { id: entry.id.clone(), lod: entry.lod });
                assert(kept@.drop_last() =~= kept0);
            }
            proof {
                assert(s.take(i + 1).drop_last() =~= s.take(i as int));
                assert(s.take(i + 1).last() == s[i as int]);
                assert(crate::keyed::contents::<Seq<char>, LodEntry>(kept@)
                    =~= crate::keyed::contents::<Seq<char>, LodEntry>(s.take(i + 1)).restrict(
                    id_set(seen@),
                )) by {
                    crate::keyed::lemma_ascending_distinct(s);
                    if !id_set(seen@).contains(s[i as int].id@) {
                        crate::keyed::lemma_contents_holds::<Seq<char>, LodEntry>(
                            kept0,
                            s[i as int].id@,
                        );
                    }
                }
                assert(crate::keyed::ascending(kept@)) by {
                    assert forall|a: int, b: int| 0 <= a < b < kept@.len() implies
                        crate::text::precedes(
                        (#[trigger] kept@[a]).key(),
                        (#[trigger] kept@[b]).key(),
                    ) by {
                        if b < kept0.len() {
                            assert(crate::text::precedes(kept0[a].key(), kept0[b].key()));
                        } else {
                            assert(crate::text::precedes(kept0[a].id@, s[i as int].id@));
                        }
                    }
                }
                if i + 1 < s.len() {
                    assert forall|k: int| 0 <= k < kept@.len() implies crate::text::precedes(
                        (#[trigger] kept@[k]).id@,
                        s[i + 1].id@,
                    ) by {
                        assert(crate::text::precedes(s[i as int].key(), s[i + 1].key()));
                        if k < kept0.len() {
                            assert(crate::text::precedes(kept0[k].id@, s[i as int].id@));
                            crate::text::lemma_precedes_transitive(
                                kept0[k].id@,
                                s[i as int].id@,
                                s[i + 1].id@,
                            );
                        }
                    }
                }
            }
            i = i + 1;
        }
        self.entries = kept;
        assert(s.take(i as int) =~= s);
        assert(self@ =~= old(self)@.restrict(id_set(seen@)));
    }
}

impl Default for LodMemory {
    /// An empty memory.
    fn default() -> (r: Self)
        ensures
            r.wf(),
            r@ == Map::<Seq<char>, Lod>::empty(),
    {
        LodMemory::new()
    }
}

/// Whether `id` is among `ids`.
fn contains_id(ids: &Vec<ObjectId>, id: &ObjectId) -> (r: bool)
    ensures
        r == id_set(ids@).contains(id@),
{
    let mut i: usize = 0;
    while i < ids.len()
        invariant
            i <= ids@.len(),
            forall|j: int| 0 <= j < i ==> (#[trigger] ids@[j])@ != id@,
        decreases ids@.len() - i,
    {
        if ids[i].same(id) {
            assert(ids@[i as int]@ == id@);
            return true;
        }
        i = i + 1;
    }
    false
}

/// Within the hysteresis band the previous representation stands, whichever it was.
pub proof fn law_band_keeps_representation(prev: Lod, radius: Binary64)
    requires
        crate::binary64::at_most(Binary64 { bits: LOD_SHRINK_CELLS }, radius),
        crate::binary64::less(radius, Binary64 { bits: LOD_GROW_CELLS }),
    ensures
        chosen(Some(prev), radius) == prev,
{
}

/// Outside the band, history does not matter: a body too small is a point and a body large
/// enough an ellipsoid, whatever it was before.
pub proof fn law_outside_band_history_is_irrelevant(
    a: Option<Lod>,
    b: Option<Lod>,
    radius: Binary64,
)
    requires
        crate::binary64::less(radius, Binary64 { bits: LOD_SHRINK_CELLS })
            || crate::binary64::at_most(Binary64 { bits: LOD_GROW_CELLS }, radius),
    ensures
        chosen(a, radius) == chosen(b, radius),
{
}

/// A radius that stays put is classified alike from then on: one frame settles it.
pub proof fn law_choice_is_stable(prev: Option<Lod>, radius: Binary64)
    ensures
        chosen(Some(chosen(prev, radius)), radius) == chosen(prev, radius),
{
}

/// The bounds of the band are 0.75 and 1.5 cells, and its middle 1.125.
proof fn lemma_band()
    ensures
        crate::binary64::finite(Binary64 { bits: LOD_SHRINK_CELLS }),
        crate::binary64::finite(Binary64 { bits: LOD_FIRST_CELLS }),
        crate::binary64::finite(Binary64 { bits: LOD_GROW_CELLS }),
        4 * crate::binary64::scaled(Binary64 { bits: LOD_SHRINK_CELLS }) == 3 * pow2(1074),
        8 * crate::binary64::scaled(Binary64 { bits: LOD_FIRST_CELLS }) == 9 * pow2(1074),
        2 * crate::binary64::scaled(Binary64 { bits: LOD_GROW_CELLS }) == 3 * pow2(1074),
{
    vstd::arithmetic::power2::lemma2_to64_rest();
    let (shrink, first, grow) = (
        Binary64 { bits: LOD_SHRINK_CELLS },
        Binary64 { bits: LOD_FIRST_CELLS },
        Binary64 { bits: LOD_GROW_CELLS },
    );
    crate::binary64::lemma_value(shrink, 1022, 0x0018_0000_0000_0000, 0x0020_0000_0000_0000);
    crate::binary64::lemma_value(first, 1023, 0x0012_0000_0000_0000, 0x0010_0000_0000_0000);
    crate::binary64::lemma_value(grow, 1023, 0x0018_0000_0000_0000, 0x0010_0000_0000_0000);
}

/// How large a body is on screen decides, whatever was remembered of it: from 1.5 cells of radius
/// on it is an ellipsoid, below 0.75 a point. Between the two it stays what it was, and one seen
/// for the first time is an ellipsoid from 1.125 on.
pub proof fn law_size_decides(prev: Option<Lod>, radius: Binary64)
    requires
        crate::binary64::finite(radius),
    ensures
        2 * crate::binary64::scaled(radius) >= 3 * pow2(1074) ==> chosen(prev, radius)
            == Lod::Ellipsoid,
        4 * crate::binary64::scaled(radius) < 3 * pow2(1074) ==> chosen(prev, radius) == Lod::Point,
        prev is Some && 3 * pow2(1074) <= 4 * crate::binary64::scaled(radius) && 2
            * crate::binary64::scaled(radius) < 3 * pow2(1074) ==> Some(chosen(prev, radius))
            == prev,
        prev is None ==> (chosen(prev, radius) == Lod::Ellipsoid <==> 9 * pow2(1074) <= 8
            * crate::binary64::scaled(radius)),
{
    lemma_band();
    let (shrink, first, grow) = (
        Binary64 { bits: LOD_SHRINK_CELLS },
        Binary64 { bits: LOD_FIRST_CELLS },
        Binary64 { bits: LOD_GROW_CELLS },
    );
    crate::binary64::law_rank_orders_values(radius, shrink);
    crate::binary64::law_rank_orders_values(first, radius);
    crate::binary64::law_rank_orders_values(grow, radius);
}

/// Beyond all numbers too: an infinite radius is an ellipsoid, one below every number a point,
/// and one that is not a number makes no ellipsoid of anything and keeps the one there was.
pub proof fn law_size_decides_beyond_numbers(prev: Option<Lod>, radius: Binary64)
    requires
        !crate::binary64::finite(radius),
    ensures
        !crate::binary64::nan(radius) ==> (chosen(prev, radius) == Lod::Ellipsoid
            <==> !crate::binary64::negative(radius)),
        crate::binary64::nan(radius) ==> (chosen(prev, radius) == Lod::Ellipsoid <==> prev == Some(
            Lod::Ellipsoid,
        )),
{
    lemma_band();
    let (shrink, first, grow) = (
        Binary64 { bits: LOD_SHRINK_CELLS },
        Binary64 { bits: LOD_FIRST_CELLS },
        Binary64 { bits: LOD_GROW_CELLS },
    );
    crate::binary64::law_order_at_the_edges(shrink, radius);
    crate::binary64::law_order_at_the_edges(radius, shrink);
    crate::binary64::law_order_at_the_edges(first, radius);
    crate::binary64::law_order_at_the_edges(grow, radius);
}

/// With one history, a larger body is never drawn with less detail than a smaller one.
pub proof fn law_larger_is_no_less_detailed(prev: Option<Lod>, a: Binary64, b: Binary64)
    requires
        crate::binary64::at_most(a, b),
        chosen(prev, a) == Lod::Ellipsoid,
    ensures
        chosen(prev, b) == Lod::Ellipsoid,
{
}

/// What is remembered of an id is what the memory holds under it, and of no other.
pub proof fn law_memory_is_by_id(m: Map<Seq<char>, Lod>, id: Seq<char>, other: Seq<char>, lod: Lod)
    ensures
        remembered(m.insert(id, lod), id) == Some(lod),
        other != id ==> remembered(m.insert(id, lod), other) == remembered(m, other),
        remembered(m, id) is Some <==> m.contains_key(id),
{
}

} // verus!
