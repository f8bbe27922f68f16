//! Checks on what the command line hands over.

use crate::text::byte_len;
use vstd::prelude::*;

verus! {

/// The number of bytes of a parent identifier given on the command line.
pub const PARENT_ID_LEN: usize = 7;

/// Accepts a parent identifier of exactly seven bytes and hands it back.
pub fn pid_validator(s: &str) -> (r: Result<String, String>)
    ensures
        match r {
            Ok(id) => byte_len(s@) == PARENT_ID_LEN && id@ == s@,
            Err(why) => byte_len(s@) != PARENT_ID_LEN && why@
                == "Parent ID must be 7 characters long"@,
        },
{
    if s.len() == PARENT_ID_LEN {
        Ok(s.to_owned())
    } else {
        Err("Parent ID must be 7 characters long".to_owned())
    }
}

} // verus!
