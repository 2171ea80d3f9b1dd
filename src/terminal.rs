use vstd::prelude::*;

verus! {

/// Relies on `term_size::dimensions`: the `(columns, rows)` of the first of
/// stdout, stdin and stderr that is a terminal, `None` where none is. The
/// answer depends on the process's terminal, so nothing is stated of it.
#[verifier::external_body]
pub(crate) fn terminal_dimensions() -> (r: Option<(usize, usize)>) {
    term_size::dimensions()
}

} // verus!
