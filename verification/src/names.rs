//! A table of body names, each held once.

use vstd::prelude::*;

verus! {

/// Distinct names by number. A host that must hand out names with a long life keeps one copy
/// per entry: as many as there are distinct names, however often they are asked for.
#[derive(Debug)]
pub struct BodyNames {
    names: Vec<String>,
}

impl View for BodyNames {
    type V = Seq<Seq<char>>;

    closed spec fn view(&self) -> Seq<Seq<char>> {
        self.names@.map_values(|s: String| s@)
    }
}

/// The table after a name was asked for.
pub open spec fn interned(names: Seq<Seq<char>>, name: Seq<char>) -> Seq<Seq<char>> {
    if names.contains(name) {
        names
    } else {
        names.push(name)
    }
}

impl BodyNames {
    /// No name is held twice.
    pub open spec fn wf(self) -> bool {
        self@.no_duplicates()
    }

    /// No names yet.
    pub fn new() -> (r: Self)
        ensures
            r.wf(),
            r@.len() == 0,
    {
        BodyNames { names: Vec::new() }
    }

    /// How many names there are.
    pub fn len(&self) -> (r: usize)
        ensures
            r == self@.len(),
    {
        self.names.len()
    }

    /// Whether there are no names.
    pub fn is_empty(&self) -> (r: bool)
        ensures
            r == (self@.len() == 0),
    {
        self.names.len() == 0
    }

    /// The number of a name: that under which it is held already, or the next one, under which
    /// it is held from then on.
    pub fn intern_body_name(&mut self, name: &str) -> (r: usize)
        requires
            old(self).wf(),
        ensures
            final(self).wf(),
            final(self)@ == interned(old(self)@, name@),
            r < final(self)@.len(),
            final(self)@[r as int] == name@,
    {
        let ghost before = self@;
        let mut i: usize = 0;
        while i < self.names.len()
            invariant
                self@ == before,
                self.wf(),
                before == old(self)@,
                i <= before.len(),
                forall|j: int| 0 <= j < i ==> (#[trigger] before[j]) != name@,
            decreases before.len() - i,
        {
            assert(before[i as int] == self.names@[i as int]@);
            if matches!(
                crate::text::compare(self.names[i].as_str(), name),
                crate::text::TextOrder::Same
            ) {
                assert(before.contains(name@));
                return i;
            }
            i = i + 1;
        }
        assert(!before.contains(name@));
        self.names.push(name.to_owned());
        assert(self@ =~= before.push(name@));
        i
    }
}

impl Default for BodyNames {
    /// No names yet.
    fn default() -> (r: Self)
        ensures
            r.wf(),
            r@.len() == 0,
    {
        BodyNames::new()
    }
}

/// Asking for a name again adds nothing, whatever was asked for in between.
pub proof fn law_names_are_held_once(names: Seq<Seq<char>>, name: Seq<char>, other: Seq<char>)
    ensures
        interned(interned(names, name), name) == interned(names, name),
        interned(interned(interned(names, name), other), name) == interned(
            interned(names, name),
            other,
        ),
{
    let one = interned(names, name);
    assert(one.contains(name)) by {
        if !names.contains(name) {
            assert(one[names.len() as int] == name);
        }
    }
    let two = interned(one, other);
    assert(two.contains(name)) by {
        let k = choose|k: int| 0 <= k < one.len() && one[k] == name;
        assert(two[k] == name);
    }
}

/// Asking for a name loses none: every name keeps its number, the one asked for has one, and at
/// most one is added.
pub proof fn law_names_keep_their_numbers(names: Seq<Seq<char>>, name: Seq<char>)
    ensures
        interned(names, name).contains(name),
        names.len() <= interned(names, name).len() <= names.len() + 1,
        forall|i: int| 0 <= i < names.len() ==> interned(names, name)[i] == names[i],
        interned(names, name).len() == names.len() <==> names.contains(name),
{
    if !names.contains(name) {
        assert(interned(names, name)[names.len() as int] == name);
    }
}

} // verus!
