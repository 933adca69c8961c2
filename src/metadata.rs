//! Repository metadata of an artifact (`maven-metadata.xml`): its known
//! versions.

use vstd::prelude::*;

verus! {

/// An XML element holding one value.
#[derive(Clone, Debug, PartialEq, Eq, Default)]
pub struct Elem<T> {
    pub value: T,
}

impl<T> Elem<T> {
    pub fn new(value: T) -> (r: Elem<T>)
        ensures
            r.value == value,
    {
        Elem { value }
    }
}

#[derive(Debug, Clone, PartialEq, Eq)]
pub struct MavenMetadata {
    pub group_id: Elem<String>,
    pub artifact_id: Elem<String>,
    pub versioning: Versioning,
}

#[derive(Debug, Clone, PartialEq, Eq)]
pub struct Versioning {
    pub latest: Elem<String>,
    pub release: Elem<String>,
    pub versions: Versions,
}

#[derive(Debug, Clone, PartialEq, Eq)]
pub struct Versions {
    pub versions: Vec<Elem<String>>,
}

} // verus!
