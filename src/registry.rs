//! Strategies for turning a component's value into attached components,
//! registered by component name.

use vstd::prelude::*;

use crate::value::{first_named, keys_of, lemma_first_named_found, lemma_first_named_none, EntityMap};

verus! {

/// A strategy that builds a component with `build` and then attaches, in
/// order, a default value of each dependency. Each dependency is named and
/// carries what inserts its default.
pub struct ComponentInserter<D, P> {
    build: D,
    deps: Vec<(String, P)>,
}

impl<D, P> ComponentInserter<D, P> {
    /// What builds the primary component.
    pub closed spec fn builder(&self) -> D {
        self.build
    }

    pub fn build_fn(&self) -> (r: &D)
        ensures
            *r == self.builder(),
    {
        &self.build
    }

    /// The dependencies, in the order they are attached.
    pub closed spec fn dependencies(&self) -> Seq<(String, P)> {
        self.deps@
    }

    pub fn new(build: D) -> (r: Self)
        ensures
            r.builder() == build,
            r.dependencies().len() == 0,
    {
        ComponentInserter { build, deps: Vec::new() }
    }

    /// Adds a dependency, attached after those already declared.
    pub fn depends_on(self, name: &str, insert_default: P) -> (r: Self)
        ensures
            r.builder() == self.builder(),
            r.dependencies().len() == self.dependencies().len() + 1,
            r.dependencies().drop_last() == self.dependencies(),
            r.dependencies().last().0@ == name@,
            r.dependencies().last().1 == insert_default,
    {
        let mut deps = self.deps;
        let ghost before = deps@;
        deps.push((name.to_string(), insert_default));
        assert(deps@.drop_last() =~= before);
        ComponentInserter { build: self.build, deps }
    }

    /// Swaps in another builder, keeping the dependencies; returns the
    /// builder that was there.
    pub fn replace_builder<B>(self, build: B) -> (r: (D, ComponentInserter<B, P>))
        ensures
            r.0 == self.builder(),
            r.1.builder() == build,
            r.1.dependencies() == self.dependencies(),
    {
        (self.build, ComponentInserter { build, deps: self.deps })
    }

    pub fn dependency_list(&self) -> (r: &[(String, P)])
        ensures
            r@ == self.dependencies(),
    {
        self.deps.as_slice()
    }

    /// The names of the components this strategy attaches for `primary`, in
    /// order: the primary component, then every dependency.
    pub fn attached_names(&self, primary: &str) -> (r: Vec<String>)
        ensures
            r@.len() == self.dependencies().len() + 1,
            r@[0]@ == primary@,
            forall|i: int|
                0 <= i < self.dependencies().len() ==> #[trigger] r@[i + 1]@
                    == self.dependencies()[i].0@,
    {
        let mut out: Vec<String> = Vec::new();
        out.push(primary.to_string());
        let mut i: usize = 0;
        while i < self.deps.len()
            invariant
                i <= self.deps@.len(),
                out@.len() == i + 1,
                out@[0]@ == primary@,
                forall|j: int| 0 <= j < i ==> #[trigger] out@[j + 1]@ == self.deps@[j].0@,
            decreases self.deps@.len() - i,
        {
            out.push(self.deps[i].0.clone());
            i = i + 1;
        }
        out
    }
}

/// The components of an entity that held `present` after inserting each of
/// `inserts` in order. An insertion under a name that is already present
/// replaces that component.
pub open spec fn after_inserts<V>(
    present: Map<Seq<char>, V>,
    inserts: Seq<(Seq<char>, V)>,
) -> Map<Seq<char>, V>
    decreases inserts.len(),
{
    if inserts.len() == 0 {
        present
    } else {
        after_inserts(present, inserts.drop_last()).insert(inserts.last().0, inserts.last().1)
    }
}

proof fn lemma_after_inserts_holds<V>(present: Map<Seq<char>, V>, inserts: Seq<(Seq<char>, V)>, i: int)
    requires
        0 <= i < inserts.len(),
        forall|j: int| i < j < inserts.len() ==> #[trigger] inserts[j].0 != inserts[i].0,
    ensures
        after_inserts(present, inserts).contains_key(inserts[i].0),
        after_inserts(present, inserts)[inserts[i].0] == inserts[i].1,
    decreases inserts.len(),
{
    if i < inserts.len() - 1 {
        assert forall|j: int| i < j < inserts.drop_last().len() implies #[trigger] inserts.drop_last()[j].0
            != inserts.drop_last()[i].0 by {
            assert(inserts.drop_last()[j] == inserts[j]);
        }
        lemma_after_inserts_holds(present, inserts.drop_last(), i);
    }
}

/// What a strategy attaches: the built primary component, then the default
/// of each dependency, in order. With distinct names, the entity then holds
/// the built component and every dependency's default, whatever it held
/// before: a dependency that was already present is overwritten with its
/// default.
pub proof fn lemma_attaches_all<D, P, V>(
    inserter: ComponentInserter<D, P>,
    primary: Seq<char>,
    built: V,
    default_of: spec_fn(P) -> V,
    present: Map<Seq<char>, V>,
)
    requires
        forall|i: int|
            0 <= i < inserter.dependencies().len() ==> #[trigger] inserter.dependencies()[i].0@
                != primary,
        forall|i: int, j: int|
            0 <= i < inserter.dependencies().len() && 0 <= j < inserter.dependencies().len() && i
                != j ==> #[trigger] inserter.dependencies()[i].0@
                != #[trigger] inserter.dependencies()[j].0@,
    ensures
        ({
            let deps = inserter.dependencies();
            let inserts = seq![(primary, built)] + deps.map_values(
                |d: (String, P)| (d.0@, default_of(d.1)),
            );
            let after = after_inserts(present, inserts);
            &&& after.contains_key(primary)
            &&& after[primary] == built
            &&& forall|i: int|
                0 <= i < deps.len() ==> after.contains_key(#[trigger] deps[i].0@) && after[deps[i].0@]
                    == default_of(deps[i].1)
        }),
{
    let deps = inserter.dependencies();
    let inserts = seq![(primary, built)] + deps.map_values(
        |d: (String, P)| (d.0@, default_of(d.1)),
    );
    assert forall|j: int| 0 < j < inserts.len() implies #[trigger] inserts[j].0 != inserts[0].0 by {
        assert(inserts[j] == (deps[j - 1].0@, default_of(deps[j - 1].1)));
    }
    lemma_after_inserts_holds(present, inserts, 0);
    assert forall|i: int| 0 <= i < deps.len() implies after_inserts(present, inserts).contains_key(
        #[trigger] deps[i].0@,
    ) && after_inserts(present, inserts)[deps[i].0@] == default_of(deps[i].1) by {
        assert(inserts[i + 1] == (deps[i].0@, default_of(deps[i].1)));
        assert forall|j: int| i + 1 < j < inserts.len() implies #[trigger] inserts[j].0
            != inserts[i + 1].0 by {
            assert(inserts[j] == (deps[j - 1].0@, default_of(deps[j - 1].1)));
        }
        lemma_after_inserts_holds(present, inserts, i + 1);
    }
}

/// Maps component names to strategies.
pub struct BlueprintComponentAdderRegistry<A> {
    entries: EntityMap<A>,
}

impl<A> BlueprintComponentAdderRegistry<A> {
    /// The registered strategies, by name.
    pub closed spec fn table(&self) -> Seq<(String, A)> {
        self.entries.entries@
    }

    pub closed spec fn wf(&self) -> bool {
        self.entries.wf()
    }

    /// The names that have a strategy.
    pub open spec fn names(&self) -> Seq<Seq<char>> {
        keys_of(self.table())
    }

    pub fn new() -> (r: Self)
        ensures
            r.wf(),
            r.table().len() == 0,
    {
        BlueprintComponentAdderRegistry { entries: EntityMap::new() }
    }

    /// Registers `component` under `name`, replacing a strategy of that name.
    pub fn register_component(&mut self, name: &str, component: A)
        requires
            old(self).wf(),
        ensures
            final(self).wf(),
            match first_named(old(self).table(), name@) {
                Some(i) => final(self).table() == old(self).table().update(
                    i,
                    (old(self).table()[i].0, component),
                ),
                None => final(self).table().len() == old(self).table().len() + 1
                    && final(self).table().take(old(self).table().len() as int)
                    == old(self).table() && final(self).table().last().0@ == name@
                    && final(self).table().last().1 == component,
            },
    {
        self.entries.add_component(name, component);
    }

    /// The strategy registered under `name`, if any.
    pub fn get_adder(&self, name: &str) -> (r: Option<&A>)
        requires
            self.wf(),
        ensures
            r is Some <==> self.names().contains(name@),
            r matches Some(a) ==> first_named(self.table(), name@) matches Some(i) && *a
                == self.table()[i].1,
    {
        let key = name.to_string();
        let n = self.entries.entries.len();
        let mut i: usize = 0;
        while i < n
            invariant
                n == self.table().len(),
                i <= n,
                key@ == name@,
                self.wf(),
                forall|j: int| 0 <= j < i ==> #[trigger] self.table()[j].0@ != name@,
            decreases n - i,
        {
            if self.entries.entries[i].0 == key {
                proof {
                    lemma_first_named_none(self.table(), name@, i as int);
                    assert(self.table().take(i + 1).drop_last() =~= self.table().take(i as int));
                    lemma_first_named_found(self.table(), name@, i as int, n as int);
                    assert(self.table().take(n as int) =~= self.table());
                    assert(self.names()[i as int] == name@);
                }
                return Some(&self.entries.entries[i].1);
            }
            i = i + 1;
        }
        proof {
            if self.names().contains(name@) {
                let k = self.names().index_of(name@);
                assert(self.table()[k].0@ == name@);
            }
        }
        None
    }
}

} // verus!
