//! Who may do what only the owner may do.

use vstd::prelude::*;

verus! {

/// The caller is not the owner.
#[derive(Clone, Copy, Debug, PartialEq, Eq)]
pub struct Unauthorized;

/// Lets `caller` pass where only `owner` may.
pub fn authorize(caller: &String, owner: &String) -> (r: Result<(), Unauthorized>)
    ensures
        r is Ok <==> caller@ == owner@,
{
    if *caller == *owner {
        Ok(())
    } else {
        Err(Unauthorized)
    }
}

} // verus!
