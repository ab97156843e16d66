//! Small helpers shared by the text formats.

use vstd::prelude::*;
use crate::text::{chars_of, parse_u64_at, parse_u64_spec};

verus! {

/// Reads an unsigned 64-bit number from text: the text is trimmed of white space, then
/// parsed as an optional `+` followed by decimal digits. `None` where that fails or the
/// number does not fit.
pub fn parse_u64(value: &str) -> (r: Option<u64>)
    ensures
        r == parse_u64_spec(value@),
{
    let v = chars_of(value);
    let r = parse_u64_at(&v, 0, v.len());
    assert(v@.subrange(0, v@.len() as int) =~= v@);
    r
}

} // verus!
