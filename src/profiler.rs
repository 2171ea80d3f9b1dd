use vstd::prelude::*;

verus! {

/// Marks an instrumented region by its label. Timing and collecting the
/// regions is left to whoever runs the application; the library only names
/// them.
pub struct Timer {
    name: String,
}

impl Timer {
    pub closed spec fn label(&self) -> Seq<char> {
        self.name@
    }

    pub fn new(name: String) -> (r: Timer)
        ensures
            r.label() == name@,
    {
        Timer { name }
    }

    pub fn name(&self) -> (r: &String)
        ensures
            r@ == self.label(),
    {
        &self.name
    }
}

} // verus!
