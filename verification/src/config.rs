//! Project configuration records.
//!
//! Loading and saving these from the configuration store is plain file
//! I/O and lives with the embedding application; the record itself is the
//! library's.
use vstd::prelude::*;

verus! {

/// One configured project: its display name and its directory.
#[derive(Debug, PartialEq, Eq)]
pub struct ProjectConfig {
    pub name: String,
    pub path: String,
}

pub ghost struct ProjectConfigModel {
    pub name: Seq<char>,
    pub path: Seq<char>,
}

impl View for ProjectConfig {
    type V = ProjectConfigModel;

    open spec fn view(&self) -> ProjectConfigModel {
        ProjectConfigModel { name: self.name@, path: self.path@ }
    }
}

impl DeepView for ProjectConfig {
    type V = ProjectConfigModel;

    open spec fn deep_view(&self) -> ProjectConfigModel {
        self.view()
    }
}

impl Clone for ProjectConfig {
    fn clone(&self) -> (r: Self)
        ensures
            r@ == self@,
    {
        ProjectConfig { name: self.name.clone(), path: self.path.clone() }
    }
}

} // verus!
