//! Binding environments: the fields visible to code at one point of a
//! pipeline, each with its storage name and metadata.
use vstd::prelude::*;
use crate::ir::ValueMetadata;

verus! {

/// One visible field: its logical name, the storage that holds it, and what is
/// known of its value.
pub struct Binding {
    pub name: String,
    pub slot: String,
    pub meta: ValueMetadata,
}

/// The model of a binding: (name, storage name, metadata).
pub type BindingModel = (Seq<char>, Seq<char>, ValueMetadata);

impl View for Binding {
    type V = BindingModel;

    open spec fn view(&self) -> BindingModel {
        (self.name@, self.slot@, self.meta)
    }
}

/// A binding environment; a name bound twice resolves to its last entry.
pub struct VariableMapping {
    pub entries: Vec<Binding>,
}

impl View for VariableMapping {
    type V = Seq<BindingModel>;

    open spec fn view(&self) -> Seq<BindingModel> {
        self.entries@.map_values(|b: Binding| b@)
    }
}

/// The last position below `i` at which `env` binds `name`.
pub open spec fn find_before(env: Seq<BindingModel>, name: Seq<char>, i: int) -> Option<int>
    decreases i,
{
    if i <= 0 || i > env.len() {
        None
    } else if env[i - 1].0 == name {
        Some(i - 1)
    } else {
        find_before(env, name, i - 1)
    }
}

/// The position of the entry through which `env` binds `name`, if any: the
/// last one, so that a later binding of a name overrides an earlier one.
pub open spec fn find(env: Seq<BindingModel>, name: Seq<char>) -> Option<int> {
    find_before(env, name, env.len() as int)
}

/// The set of names that `env` binds.
pub open spec fn bound_names(env: Seq<BindingModel>) -> Set<Seq<char>> {
    Set::new(|x: Seq<char>| exists|k: int| 0 <= k < env.len() && env[k].0 == x)
}

/// A position found lies below `i` and binds the name, and no later one below
/// `i` does; none is found exactly when no entry below `i` binds it.
pub proof fn lemma_find_before(env: Seq<BindingModel>, name: Seq<char>, i: int)
    requires
        0 <= i <= env.len(),
    ensures
        match find_before(env, name, i) {
            Some(k) => 0 <= k < i && env[k].0 == name && forall|j: int| k < j < i ==> env[j].0 != name,
            None => forall|k: int| 0 <= k < i ==> env[k].0 != name,
        },
    decreases i,
{
    if i > 0 && env[i - 1].0 != name {
        lemma_find_before(env, name, i - 1);
    }
}

/// `find` agrees with `bound_names`.
pub proof fn lemma_find_bound(env: Seq<BindingModel>, name: Seq<char>)
    ensures
        find(env, name).is_some() <==> bound_names(env).contains(name),
        match find(env, name) {
            Some(k) => 0 <= k < env.len() && env[k].0 == name && forall|j: int|
                k < j < env.len() ==> env[j].0 != name,
            None => true,
        },
{
    lemma_find_before(env, name, env.len() as int);
}

impl VariableMapping {
    /// An environment that binds nothing.
    pub fn new() -> (r: VariableMapping)
        ensures
            r@ == Seq::<BindingModel>::empty(),
    {
        VariableMapping { entries: Vec::new() }
    }

    /// Adds a binding after the present ones.
    pub fn insert(&mut self, name: String, slot: String, meta: ValueMetadata)
        ensures
            final(self)@ == old(self)@.push((name@, slot@, meta)),
    {
        self.entries.push(Binding { name, slot, meta });
        assert(self@ =~= old(self)@.push((name@, slot@, meta)));
    }

    /// The position of the entry that binds `name`, if any.
    pub fn get(&self, name: &String) -> (r: Option<usize>)
        ensures
            r is Some <==> find(self@, name@) is Some,
            r is Some ==> find(self@, name@) == Some(r->Some_0 as int),
    {
        let mut i: usize = self.entries.len();
        while i > 0
            invariant
                i <= self.entries@.len(),
                find(self@, name@) == find_before(self@, name@, i as int),
            decreases i,
        {
            if self.entries[i - 1].name == *name {
                assert(find_before(self@, name@, i as int) == Some(i - 1));
                return Some(i - 1);
            }
            i = i - 1;
        }
        None
    }
}

} // verus!
