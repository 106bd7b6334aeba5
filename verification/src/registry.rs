//! The component state registry: the component instances of an application,
//! each kept under the path at which a render tree first referred to it.

use crate::component::Component;
use crate::error::Error;
use crate::path::{Path, PathModel};
use vstd::prelude::*;

verus! {

/// The instances of the components, by path. An instance is made when its path
/// is first met and stays for good.
pub struct Registry<C> {
    entries: Vec<(Path, C)>,
}

/// The map that a list of entries stands for; of two entries with one path the
/// earlier counts.
pub open spec fn entries_map<C>(entries: Seq<(Path, C)>) -> Map<PathModel, C>
    decreases entries.len(),
{
    if entries.len() == 0 {
        Map::empty()
    } else {
        entries_map(entries.drop_first()).insert(entries[0].0@, entries[0].1)
    }
}

/// The registry after a call of `get_or_insert` for `path`, where the factory
/// would make `fresh`: an instance that is there stays, and only a path that
/// has none gets the fresh one.
pub open spec fn kept_or_inserted<C>(
    registry: Map<PathModel, C>,
    path: PathModel,
    fresh: C,
) -> Map<PathModel, C> {
    if registry.contains_key(path) {
        registry
    } else {
        registry.insert(path, fresh)
    }
}

proof fn lemma_entries_first<C>(entries: Seq<(Path, C)>, path: PathModel, at: int)
    requires
        0 <= at < entries.len(),
        entries[at].0@ == path,
        forall|k: int| 0 <= k < at ==> (#[trigger] entries[k]).0@ != path,
    ensures
        entries_map(entries).contains_key(path),
        entries_map(entries)[path] == entries[at].1,
    decreases entries.len(),
{
    if at > 0 {
        let rest = entries.drop_first();
        assert forall|k: int| 0 <= k < at - 1 implies (#[trigger] rest[k]).0@ != path by {
            assert(rest[k] == entries[k + 1]);
        }
        lemma_entries_first(rest, path, at - 1);
        assert(entries[0].0@ != path);
    }
}

proof fn lemma_entries_absent<C>(entries: Seq<(Path, C)>, path: PathModel)
    requires
        forall|k: int| 0 <= k < entries.len() ==> (#[trigger] entries[k]).0@ != path,
    ensures
        !entries_map(entries).contains_key(path),
    decreases entries.len(),
{
    if entries.len() > 0 {
        let rest = entries.drop_first();
        assert forall|k: int| 0 <= k < rest.len() implies (#[trigger] rest[k]).0@ != path by {
            assert(rest[k] == entries[k + 1]);
        }
        lemma_entries_absent(rest, path);
        assert(entries[0].0@ != path);
    }
}

proof fn lemma_entries_push<C>(entries: Seq<(Path, C)>, entry: (Path, C))
    requires
        forall|k: int| 0 <= k < entries.len() ==> (#[trigger] entries[k]).0@ != entry.0@,
    ensures
        entries_map(entries.push(entry)) == entries_map(entries).insert(entry.0@, entry.1),
    decreases entries.len(),
{
    let after = entries.push(entry);
    if entries.len() == 0 {
        assert(after.drop_first() =~= entries);
        assert(entries_map(after) =~= entries_map(entries).insert(entry.0@, entry.1));
    } else {
        let rest = entries.drop_first();
        assert forall|k: int| 0 <= k < rest.len() implies (#[trigger] rest[k]).0@ != entry.0@ by {
            assert(rest[k] == entries[k + 1]);
        }
        lemma_entries_push(rest, entry);
        assert(after.drop_first() =~= rest.push(entry));
        assert(entries[0].0@ != entry.0@);
        assert(entries_map(after) =~= entries_map(entries).insert(entry.0@, entry.1));
    }
}

proof fn lemma_entries_update<C>(entries: Seq<(Path, C)>, at: int, entry: (Path, C))
    requires
        0 <= at < entries.len(),
        entries[at].0@ == entry.0@,
        forall|k: int| 0 <= k < at ==> (#[trigger] entries[k]).0@ != entry.0@,
    ensures
        entries_map(entries.update(at, entry)) == entries_map(entries).insert(entry.0@, entry.1),
    decreases entries.len(),
{
    let after = entries.update(at, entry);
    if at == 0 {
        assert(after.drop_first() =~= entries.drop_first());
        assert(entries_map(after) =~= entries_map(entries).insert(entry.0@, entry.1));
    } else {
        let rest = entries.drop_first();
        assert forall|k: int| 0 <= k < at - 1 implies (#[trigger] rest[k]).0@ != entry.0@ by {
            assert(rest[k] == entries[k + 1]);
        }
        lemma_entries_update(rest, at - 1, entry);
        assert(after.drop_first() =~= rest.update(at - 1, entry));
        assert(entries[0].0@ != entry.0@);
        assert(entries_map(after) =~= entries_map(entries).insert(entry.0@, entry.1));
    }
}

impl<C> View for Registry<C> {
    type V = Map<PathModel, C>;

    closed spec fn view(&self) -> Map<PathModel, C> {
        entries_map(self.entries@)
    }
}

impl<C> Registry<C> {
    /// A registry without instances.
    pub fn new() -> (registry: Registry<C>)
        ensures
            registry@ == Map::<PathModel, C>::empty(),
            registry.spec_len() == 0,
    {
        Registry { entries: Vec::new() }
    }

    fn find(&self, path: &Path) -> (found: Option<usize>)
        ensures
            match found {
                Some(at) => at < self.entries@.len() && self.entries@[at as int].0@ == path@
                    && self@.contains_key(path@) && self@[path@] == self.entries@[at as int].1
                    && forall|k: int| 0 <= k < at ==> (#[trigger] self.entries@[k]).0@ != path@,
                None => !self@.contains_key(path@) && forall|k: int|
                    0 <= k < self.entries@.len() ==> (#[trigger] self.entries@[k]).0@ != path@,
            },
    {
        let mut i: usize = 0;
        while i < self.entries.len()
            invariant
                i <= self.entries@.len(),
                forall|k: int| 0 <= k < i ==> (#[trigger] self.entries@[k]).0@ != path@,
            decreases self.entries@.len() - i,
        {
            if self.entries[i].0 == *path {
                proof {
                    lemma_entries_first(self.entries@, path@, i as int);
                }
                return Some(i);
            }
            i += 1;
        }
        proof {
            lemma_entries_absent(self.entries@, path@);
        }
        None
    }

    /// Whether an instance is kept under `path`.
    pub fn contains(&self, path: &Path) -> (found: bool)
        ensures
            found == self@.contains_key(path@),
    {
        self.find(path).is_some()
    }

    /// The number of instances.
    pub fn len(&self) -> (len: usize)
        ensures
            len == self.spec_len(),
    {
        self.entries.len()
    }

    /// The number of instances.
    pub closed spec fn spec_len(&self) -> nat {
        self.entries@.len()
    }

    /// The instance kept under `path`. Only a path that has one may be asked
    /// for.
    pub fn get(&self, path: &Path) -> (component: &C)
        requires
            self@.contains_key(path@),
        ensures
            *component == self@[path@],
    {
        let found = self.find(path);
        &self.entries[found.unwrap()].1
    }

    /// The instance kept under `path`; where there is none, `factory` makes
    /// one, which is kept under `path` from then on. An instance that is there
    /// is never replaced, and the factory is then not called.
    pub fn get_or_insert<F: FnOnce() -> C>(&mut self, path: &Path, factory: F) -> (component: &C)
        requires
            factory.requires(()),
        ensures
            *component == final(self)@[path@],
            final(self)@ == kept_or_inserted(old(self)@, path@, *component),
            !old(self)@.contains_key(path@) ==> factory.ensures((), *component),
            final(self).spec_len() == old(self).spec_len() + (if old(self)@.contains_key(path@) {
                0nat
            } else {
                1nat
            }),
    {
        match self.find(path) {
            Some(at) => &self.entries[at].1,
            None => {
                let fresh = factory();
                let ghost before = self.entries@;
                let entry = (path.clone(), fresh);
                proof {
                    lemma_entries_push(before, entry);
                }
                self.entries.push(entry);
                let last = self.entries.len() - 1;
                &self.entries[last].1
            },
        }
    }
}

impl<C: Component> Registry<C> {
    /// Delivers `message` to the instance kept under `path`: its handler runs
    /// on it. Where no instance is kept under `path`, nothing changes and the
    /// failure is [`Error::InvalidId`].
    pub fn dispatch(&mut self, path: &Path, message: &C::Message) -> (outcome: Result<(), Error>)
        ensures
            old(self)@.contains_key(path@) ==> outcome.is_ok() && final(self)@ == old(self)@.insert(
                path@,
                old(self)@[path@].handled(*message),
            ),
            !old(self)@.contains_key(path@) ==> outcome == Err::<(), Error>(Error::InvalidId)
                && final(self)@ == old(self)@,
            final(self).spec_len() == old(self).spec_len(),
    {
        match self.find(path) {
            Some(at) => {
                let ghost before = self.entries@;
                let (kept, mut component) = self.entries.remove(at);
                component.callback(message);
                let entry = (kept, component);
                self.entries.insert(at, entry);
                proof {
                    assert(self.entries@ =~= before.update(at as int, entry));
                    lemma_entries_update(before, at as int, entry);
                }
                Ok(())
            },
            None => Err(Error::InvalidId),
        }
    }
}

/// Single creation: of two calls of `get_or_insert` for one path, the second
/// finds the instance that the first one left and leaves the registry as it
/// is, whatever its factory would make.
pub proof fn lemma_created_once<C>(
    registry: Map<PathModel, C>,
    path: PathModel,
    first: C,
    second: C,
)
    ensures
        kept_or_inserted(kept_or_inserted(registry, path, first), path, second) == kept_or_inserted(
            registry,
            path,
            first,
        ),
        kept_or_inserted(registry, path, first).contains_key(path),
        registry.contains_key(path) ==> kept_or_inserted(registry, path, first)[path]
            == registry[path],
{
}

} // verus!
