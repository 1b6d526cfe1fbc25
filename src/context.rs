use vstd::prelude::*;
use crate::position::Range;

verus! {

/// A named scope, linked to the scope it was entered from and the span
/// where that happened; the root has no parent.
pub struct Context {
    pub name: String,
    pub parent: Box<Option<(Range, Context)>>,
}

impl Context {
    pub fn new(name: String, parent: Option<(Range, Context)>) -> (r: Context)
        ensures
            r.name@ == name@,
            *r.parent == parent,
    {
        Context { name, parent: Box::new(parent) }
    }
}

} // verus!
