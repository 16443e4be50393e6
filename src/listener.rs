use vstd::prelude::*;

verus! {

/// The health endpoint's answer: the `state` it was called with, echoed back, or
/// nothing when the call carried none.
pub fn health(state: Option<String>) -> (r: String)
    ensures
        match state {
            Some(s) => r@ == s@,
            None => r@ == Seq::<char>::empty(),
        },
{
    match state {
        Some(s) => s,
        None => String::new(),
    }
}

} // verus!
