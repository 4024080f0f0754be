//! Scope-aware import analysis for one source file of a module-oriented
//! language.
//!
//! Given the file's syntax tree (parsed elsewhere and handed over as plain
//! values, see [`ast`]), the resolver walks it depth-first while tracking
//! lexical scopes, and splits the external crates the file references into
//! those every build needs and those only test builds need, alongside three
//! structural hints.  The traversal, its scope stack and the final
//! filtering are verified: their contracts tie every step to a
//! mathematical mirror of the walk, and [`laws`] states the guarantees
//! that hold of whole subtrees.

pub mod analysis;
pub mod ast;
pub mod laws;
pub mod names;
pub mod scope;
pub mod visitor;

use vstd::prelude::*;

verus! {

/// Structural hints gathered while walking one source file.
pub struct Hints {
    pub has_main: bool,
    pub has_test: bool,
    pub has_proc_macro: bool,
}

impl Default for Hints {
    fn default() -> (r: Hints)
        ensures
            !r.has_main,
            !r.has_test,
            !r.has_proc_macro,
    {
        Hints { has_main: false, has_test: false, has_proc_macro: false }
    }
}

} // verus!
