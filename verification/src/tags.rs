//! The rule deciding whether a string is a legal marker-tag name.

use vstd::prelude::*;

verus! {

/// A character allowed after the first position of a tag name: an ASCII
/// letter, an ASCII digit, or an underscore.
pub open spec fn is_tag_char(c: char) -> bool {
    let u = c as u32;
    (0x61 <= u && u <= 0x7A) || (0x41 <= u && u <= 0x5A) || (0x30 <= u && u <= 0x39) || u == 0x5F
}

/// A legal tag name: non-empty, starting with an ASCII lowercase letter,
/// every later character an ASCII alphanumeric or an underscore.
pub open spec fn is_tag_name_spec(s: Seq<char>) -> bool {
    &&& s.len() > 0
    &&& 0x61 <= (s[0] as u32) && (s[0] as u32) <= 0x7A
    &&& forall|i: int| 1 <= i < s.len() ==> is_tag_char(#[trigger] s[i])
}

/// Return true if the string is a valid SkySpark tag name.
pub fn is_tag_name(s: &str) -> (r: bool)
    ensures
        r == is_tag_name_spec(s@),
{
    let n = s.unicode_len();
    if n == 0 {
        return false;
    }
    let first = s.get_char(0) as u32;
    if !(0x61 <= first && first <= 0x7A) {
        return false;
    }
    let mut i: usize = 1;
    while i < n
        invariant
            1 <= i <= n,
            n == s@.len(),
            forall|k: int| 1 <= k < i ==> is_tag_char(#[trigger] s@[k]),
        decreases n - i,
    {
        let u = s.get_char(i) as u32;
        if !((0x61 <= u && u <= 0x7A) || (0x41 <= u && u <= 0x5A) || (0x30 <= u && u <= 0x39)
            || u == 0x5F) {
            return false;
        }
        i = i + 1;
    }
    true
}

} // verus!
