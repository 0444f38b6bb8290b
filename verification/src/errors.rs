//! The errors a compilation can end in.

use vstd::prelude::*;

verus! {

/// What a compilation surfaces instead of a module tree.
#[derive(Debug)]
pub enum CompileError {
    /// A name could not be resolved, or resolution was attempted in a place
    /// that cannot hold it; `trace` lists the enclosing message names,
    /// innermost first, then the owning file's path.
    Resolution { message: String, trace: Vec<String> },
    /// The schema uses a construct this compiler deliberately refuses to
    /// guess an encoding for.
    NotImplemented { feature: String },
    /// An internal contract of the resolver or translator was violated.
    Internal { detail: String },
}

} // verus!
