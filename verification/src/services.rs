//! The services of a server: how they are registered, built, started and stopped, and what is
//! asked of all of them.
//!
//! `W` is what the registry keeps of a service; it is not looked into here.

use vstd::prelude::*;

use crate::error::Error;
use crate::error::ErrorView;
use crate::text::text_before;
use crate::text::text_less;
use crate::text::text_less_is_irreflexive;
use crate::text::text_less_is_total;
use crate::text::text_less_is_transitive;

pub mod building;
pub mod lifecycle;
pub mod queries;

verus! {

/// The names of `entries` stand in ascending order, none of them twice.
pub open spec fn ascending<W>(entries: Seq<(String, W)>) -> bool {
    forall|i: int, j: int|
        0 <= i < j < entries.len() ==> text_less((#[trigger] entries[i]).0@, (
        #[trigger] entries[j]).0@)
}

/// `entries` has an entry for `name`.
pub open spec fn has_name<W>(entries: Seq<(String, W)>, name: Seq<char>) -> bool {
    exists|i: int| 0 <= i < entries.len() && (#[trigger] entries[i]).0@ == name
}

/// The entry for `name`.
pub open spec fn under_name<W>(entries: Seq<(String, W)>, name: Seq<char>) -> W {
    entries[choose|i: int| 0 <= i < entries.len() && (#[trigger] entries[i]).0@ == name].1
}

/// The names of `entries`.
pub open spec fn names_of<W>(entries: Seq<(String, W)>) -> Seq<Seq<char>> {
    entries.map_values(|entry: (String, W)| entry.0@)
}

/// `names` are the names under which `registry` holds something, in ascending order.
pub open spec fn lists_names<W>(names: Seq<Seq<char>>, registry: Map<Seq<char>, W>) -> bool {
    &&& forall|i: int, j: int|
        0 <= i < j < names.len() ==> text_less(#[trigger] names[i], #[trigger] names[j])
    &&& names.to_set() == registry.dom()
}

/// What `entries` register.
pub open spec fn registry_of<W>(entries: Seq<(String, W)>) -> Map<Seq<char>, W> {
    Map::new(
        |name: Seq<char>| has_name(entries, name),
        |name: Seq<char>| under_name(entries, name),
    )
}

/// The services of a server by their names.
pub struct Services<W> {
    service: Vec<(String, W)>,
}

impl<W> View for Services<W> {
    type V = Map<Seq<char>, W>;

    closed spec fn view(&self) -> Map<Seq<char>, W> {
        registry_of(self.service@)
    }
}

/// Names that ascend differ.
proof fn ascending_names_differ<W>(entries: Seq<(String, W)>)
    requires
        ascending(entries),
    ensures
        forall|i: int, j: int|
            0 <= i < entries.len() && 0 <= j < entries.len() && (#[trigger] entries[i]).0@ == (
            #[trigger] entries[j]).0@ ==> i == j,
{
    assert forall|i: int, j: int|
        0 <= i < entries.len() && 0 <= j < entries.len() && (#[trigger] entries[i]).0@ == (
        #[trigger] entries[j]).0@ implies i == j by {
        text_less_is_irreflexive(entries[i].0@);
    }
}

/// What is registered is registered under the names of the entries.
pub proof fn names_are_registered<W>(entries: Seq<(String, W)>)
    requires
        ascending(entries),
    ensures
        lists_names(names_of(entries), registry_of(entries)),
{
    let names = names_of(entries);
    assert forall|i: int, j: int| 0 <= i < j < names.len() implies text_less(
        #[trigger] names[i],
        #[trigger] names[j],
    ) by {
        assert(text_less(entries[i].0@, entries[j].0@));
    }
    assert forall|name: Seq<char>| names.to_set().contains(name) <==> has_name(entries, name) by {
        if has_name(entries, name) {
            let i = choose|i: int| 0 <= i < entries.len() && (#[trigger] entries[i]).0@ == name;
            assert(names[i] == name);
        }
    }
    assert(names.to_set() =~= registry_of(entries).dom());
}

/// An entry with a new name put between the lower and the higher names keeps the order.
proof fn insert_keeps_order<W>(entries: Seq<(String, W)>, at: int, entry: (String, W))
    requires
        ascending(entries),
        0 <= at <= entries.len(),
        forall|i: int| 0 <= i < at ==> text_less((#[trigger] entries[i]).0@, entry.0@),
        at < entries.len() ==> text_less(entry.0@, entries[at].0@),
    ensures
        ascending(entries.insert(at, entry)),
        registry_of(entries.insert(at, entry)) == registry_of(entries).insert(entry.0@, entry.1),
{
    let after = entries.insert(at, entry);
    assert forall|i: int, j: int| 0 <= i < j < after.len() implies text_less(
        (#[trigger] after[i]).0@,
        (#[trigger] after[j]).0@,
    ) by {
        if i < at && j > at {
            assert(after[i] == entries[i] && after[j] == entries[j - 1]);
        } else if i > at {
            assert(after[i] == entries[i - 1] && after[j] == entries[j - 1]);
        } else if j < at {
            assert(after[i] == entries[i] && after[j] == entries[j]);
        } else if i == at {
            assert(after[j] == entries[j - 1]);
            if j - 1 > at {
                text_less_is_transitive(entry.0@, entries[at].0@, entries[j - 1].0@);
            }
        }
    }
    ascending_names_differ(after);
    ascending_names_differ(entries);
    assert(after[at] == entry);
    assert forall|name: Seq<char>| name != entry.0@ implies has_name(after, name) == has_name(
        entries,
        name,
    ) && (has_name(entries, name) ==> under_name(after, name) == under_name(entries, name)) by {
        if has_name(entries, name) {
            let i = choose|i: int| 0 <= i < entries.len() && (#[trigger] entries[i]).0@ == name;
            let moved = if i < at {
                i
            } else {
                i + 1
            };
            assert(after[moved] == entries[i]);
        }
        if has_name(after, name) {
            let i = choose|i: int| 0 <= i < after.len() && (#[trigger] after[i]).0@ == name;
            let from = if i < at {
                i
            } else {
                i - 1
            };
            assert(after[i] == entries[from]);
        }
    }
    assert(registry_of(after) =~= registry_of(entries).insert(entry.0@, entry.1));
}

/// An entry in place of the one with the same name keeps the order.
proof fn update_keeps_order<W>(entries: Seq<(String, W)>, at: int, entry: (String, W))
    requires
        ascending(entries),
        0 <= at < entries.len(),
        entries[at].0@ == entry.0@,
    ensures
        ascending(entries.update(at, entry)),
        registry_of(entries.update(at, entry)) == registry_of(entries).insert(entry.0@, entry.1),
{
    let after = entries.update(at, entry);
    assert forall|i: int| 0 <= i < after.len() implies (#[trigger] after[i]).0@ == entries[i].0@ by {}
    assert forall|i: int, j: int| 0 <= i < j < after.len() implies text_less(
        (#[trigger] after[i]).0@,
        (#[trigger] after[j]).0@,
    ) by {
        assert(text_less(entries[i].0@, entries[j].0@));
    }
    ascending_names_differ(after);
    ascending_names_differ(entries);
    assert(after[at] == entry);
    assert forall|name: Seq<char>| name != entry.0@ implies has_name(after, name) == has_name(
        entries,
        name,
    ) && (has_name(entries, name) ==> under_name(after, name) == under_name(entries, name)) by {
        if has_name(entries, name) {
            let i = choose|i: int| 0 <= i < entries.len() && (#[trigger] entries[i]).0@ == name;
            assert(after[i] == entries[i]);
        }
        if has_name(after, name) {
            let i = choose|i: int| 0 <= i < after.len() && (#[trigger] after[i]).0@ == name;
            assert(after[i] == entries[i]);
        }
    }
    assert(registry_of(after) =~= registry_of(entries).insert(entry.0@, entry.1));
}

impl<W> Services<W> {
    /// The names ascend.
    #[verifier::type_invariant]
    spec fn inv(self) -> bool {
        ascending(self.service@)
    }

    /// No services.
    pub fn new() -> (r: Self)
        ensures
            r@ == Map::<Seq<char>, W>::empty(),
    {
        let r = Services { service: Vec::new() };
        assert(r@ =~= Map::<Seq<char>, W>::empty());
        r
    }

    /// The place of the first name that does not come before `name`.
    fn place_of(&self, name: &str) -> (r: usize)
        ensures
            r <= self.service@.len(),
            forall|i: int| 0 <= i < r ==> text_less((#[trigger] self.service@[i]).0@, name@),
            r < self.service@.len() ==> !text_less(self.service@[r as int].0@, name@),
    {
        for i in 0..self.service.len()
            invariant
                forall|j: int| 0 <= j < i ==> text_less((#[trigger] self.service@[j]).0@, name@),
        {
            if !text_before(&self.service[i].0, name) {
                return i;
            }
        }
        self.service.len()
    }

    /// Registers `entry` under `name`, in place of what was registered under that name.
    pub fn add_service(&mut self, name: String, entry: W)
        ensures
            final(self)@ == old(self)@.insert(name@, entry),
    {
        proof {
            use_type_invariant(&*self);
        }
        let place = self.place_of(&name);
        let ghost before = self.service@;
        let ghost added = (name, entry);
        let mut service: Vec<(String, W)> = Vec::new();
        std::mem::swap(&mut service, &mut self.service);
        if place < service.len() && service[place].0 == name {
            service.set(place, (name, entry));
            proof {
                update_keeps_order(before, place as int, added);
            }
        } else {
            service.insert(place, (name, entry));
            proof {
                if place < before.len() {
                    text_less_is_total(before[place as int].0@, name@);
                }
                insert_keeps_order(before, place as int, added);
            }
        }
        self.service = service;
    }

    /// The names that are registered, in ascending order.
    pub closed spec fn names(&self) -> Seq<Seq<char>> {
        names_of(self.service@)
    }

    /// What is registered, in the order of the names.
    pub fn entries(&self) -> (r: &Vec<(String, W)>)
        ensures
            ascending(r@),
            registry_of(r@) == self@,
            names_of(r@) == self.names(),
            lists_names(self.names(), self@),
    {
        proof {
            use_type_invariant(self);
            names_are_registered(self.service@);
        }
        &self.service
    }

    /// What is registered under `name`.
    pub fn get(&self, name: &str) -> (r: Option<&W>)
        ensures
            r is Some <==> self@.contains_key(name@),
            r matches Some(entry) ==> *entry == self@[name@],
    {
        proof {
            use_type_invariant(self);
            ascending_names_differ(self.service@);
        }
        let wanted = name.to_owned();
        for i in 0..self.service.len()
            invariant
                wanted@ == name@,
                forall|i: int, j: int|
                    0 <= i < self.service@.len() && 0 <= j < self.service@.len() && (
                    #[trigger] self.service@[i]).0@ == (#[trigger] self.service@[j]).0@ ==> i == j,
                forall|j: int| 0 <= j < i ==> (#[trigger] self.service@[j]).0@ != name@,
        {
            if self.service[i].0 == wanted {
                return Some(&self.service[i].1);
            }
        }
        None
    }

    /// What is registered under `name`; an error names what is not.
    pub fn try_get(&self, name: &str) -> (r: Result<&W, Error>)
        ensures
            r is Ok <==> self@.contains_key(name@),
            r matches Ok(entry) ==> *entry == self@[name@],
            r matches Err(error) ==> error@ == ErrorView::NotFound(name@),
    {
        match self.get(name) {
            Some(entry) => Ok(entry),
            None => Err(Error::NotFound(name.to_owned())),
        }
    }
}

} // verus!
