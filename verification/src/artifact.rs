//! Artifacts: files of the shared project, keyed by a unique validated path.

use crate::reference::{clone_ref_vec, Reference, ReferenceV};
use vstd::prelude::*;

verus! {

/// An artifact row of the store.
#[derive(Debug)]
pub struct Artifact {
    pub id: i64,
    pub path: String,
    pub produced_by: String,
    pub description: String,
    pub version: Option<String>,
    pub refs: Vec<Reference>,
    pub created_at: i64,
}

/// Mathematical counterpart of [`Artifact`].
#[verifier::ext_equal]
pub struct ArtifactV {
    pub id: int,
    pub path: Seq<char>,
    pub produced_by: Seq<char>,
    pub description: Seq<char>,
    pub version: Option<Seq<char>>,
    pub refs: Seq<ReferenceV>,
    pub created_at: int,
}

impl View for Artifact {
    type V = ArtifactV;

    open spec fn view(&self) -> ArtifactV {
        ArtifactV {
            id: self.id as int,
            path: self.path@,
            produced_by: self.produced_by@,
            description: self.description@,
            version: match self.version {
                Some(v) => Some(v@),
                None => None,
            },
            refs: self.refs.deep_view(),
            created_at: self.created_at as int,
        }
    }
}

impl DeepView for Artifact {
    type V = ArtifactV;

    open spec fn deep_view(&self) -> ArtifactV {
        self.view()
    }
}

impl Clone for Artifact {
    fn clone(&self) -> (r: Self)
        ensures
            r@ == self@,
    {
        let r = Artifact {
            id: self.id,
            path: self.path.clone(),
            produced_by: self.produced_by.clone(),
            description: self.description.clone(),
            version: match &self.version {
                Some(v) => Some(v.clone()),
                None => None,
            },
            refs: clone_ref_vec(&self.refs),
            created_at: self.created_at,
        };
        proof {
            assert(r@ =~= self@);
        }
        r
    }
}

} // verus!
