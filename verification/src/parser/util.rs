//! Shared strings for the tokenizer and parser.

use vstd::prelude::*;
use std::rc::Rc;

verus! {

/// A string wrapped in a reference-counted pointer, for cheap sharing.
pub type SharedString = Rc<String>;

/// Create a shared string from a `&str`.
pub fn rcstr(s: &str) -> (r: SharedString)
    ensures
        r@ == s@,
{
    Rc::new(s.to_owned())
}

/// Create a shared string from a `String`.
pub fn rcstring(s: String) -> (r: SharedString)
    ensures
        r@ == s@,
{
    Rc::new(s)
}

} // verus!
