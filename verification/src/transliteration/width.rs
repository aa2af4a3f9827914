//! Characters of full width.

use vstd::prelude::*;

verus! {

/// A character of full width as one of ASCII.
pub open spec fn narrow(c: char) -> char {
    ((c as u32 - 0xFEE0) as u32) as char
}

/// A character of full width that has a character of ASCII.
pub open spec fn is_wide(c: char) -> bool {
    0xFF01 <= c as u32 <= 0xFF5E
}

/// A character of full width as one of ASCII.
pub fn narrow_char(c: char) -> (r: char)
    requires
        is_wide(c),
    ensures
        r == narrow(c),
{
    let u: u32 = c as u32 - 0xFEE0;
    (u as u8) as char
}

} // verus!
