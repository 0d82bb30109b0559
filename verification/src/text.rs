//! Small executable helpers over strings.
use vstd::prelude::*;

verus! {

/// String-slice equality with a proved meaning over the character views.
pub fn str_eq(a: &str, b: &str) -> (r: bool)
    ensures
        r == (a@ == b@),
{
    let sa = a.to_owned();
    let sb = b.to_owned();
    sa == sb
}

} // verus!
