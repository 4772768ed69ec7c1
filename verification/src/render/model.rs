use vstd::prelude::*;

verus! {

/// Names a collection of models that share a shader.
#[derive(Clone, Copy, PartialEq, Eq, Structural, Hash)]
pub struct CollectionKey(usize);

/// Names a model within a collection.
#[derive(Clone, Copy, PartialEq, Eq, Structural, Hash)]
pub struct ModelKey(CollectionKey, usize);

impl CollectionKey {
    /// The number of the collection.
    pub closed spec fn spec_index(&self) -> nat {
        self.0 as nat
    }

    /// The collection that models go to by default.
    pub fn default_collection() -> (k: CollectionKey)
        ensures
            k.spec_index() == 0,
    {
        CollectionKey(0)
    }

    /// The collection of the sun and moon.
    pub fn sun() -> (k: CollectionKey)
        ensures
            k.spec_index() == 1,
    {
        CollectionKey(1)
    }
}

} // verus!
