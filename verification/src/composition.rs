//! The composition boundary object: the scene as the document describes it, before
//! normalization.
use vstd::prelude::*;
use crate::error::{WavyteError, WavyteResult};
use crate::schema::{all_errs, errors_text, validate_composition, SceneSkeleton};
use crate::text::push_str;

verus! {

/// A composition as loaded from its document.
#[derive(Debug)]
pub struct Composition {
    def: SceneSkeleton,
}

impl Composition {
    /// The loaded document.
    pub closed spec fn spec_def(&self) -> SceneSkeleton {
        self.def
    }

    /// Wrap a loaded document.
    pub fn from_def(def: SceneSkeleton) -> (c: Self)
        ensures
            c.spec_def() == def,
    {
        Composition { def }
    }

    /// The loaded document.
    pub fn def(&self) -> (d: &SceneSkeleton)
        ensures
            *d == self.spec_def(),
    {
        &self.def
    }

    /// Validate the composition against the schema: `Ok` exactly when no error was found;
    /// otherwise a validation error whose message lists every error, one per line.
    pub fn validate(&self) -> (r: WavyteResult<()>)
        ensures
            r is Ok <==> all_errs(self.spec_def()).len() == 0,
            r is Err ==> (r matches Err(WavyteError::Validation(m))
                && m@ == "v0.3 schema validation failed: "@ + errors_text(all_errs(self.spec_def()))),
    {
        match validate_composition(&self.def) {
            Ok(()) => Ok(()),
            Err(e) => {
                let mut m = String::from_str("v0.3 schema validation failed: ");
                let t = e.text();
                push_str(&mut m, t.as_str());
                Err(WavyteError::Validation(m))
            },
        }
    }

    /// The declared duration, in frames.
    pub fn duration_frames(&self) -> (r: u64)
        ensures
            r == self.spec_def().duration,
    {
        self.def.duration
    }
}

} // verus!
