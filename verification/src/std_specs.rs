//! What this crate takes on trust about the standard library.

use vstd::prelude::*;

verus! {

/// `String::push` of the standard library: it appends the one character
/// `ch` to the end of the string and changes nothing else.
pub assume_specification[ String::push ](s: &mut String, ch: char)
    ensures
        final(s)@ == old(s)@.push(ch),
;

/// `i32::unsigned_abs` of the standard library: the absolute value of `x`
/// as an unsigned number, which every `i32` has, the least one included.
pub assume_specification[ i32::unsigned_abs ](x: i32) -> (res: u32)
    ensures
        res == if x < 0 {
            -x
        } else {
            x as int
        },
;

} // verus!
