use vstd::prelude::*;
use vstd::string::StrSliceExecFns;

verus! {

/// Whether `c` may not appear in a display name or room code typed by a player.
pub open spec fn is_markup_char(c: char) -> bool {
    c == '<' || c == '>'
}

/// Whether typed input `name` is accepted: empty, or at most `max_len` bytes
/// long without `<` or `>`.
pub fn check_name(name: &str, max_len: u32) -> (r: bool)
    ensures
        r == (name.len() == 0 || (name.len() <= max_len && forall|i: int|
            0 <= i < name@.len() ==> !is_markup_char(#[trigger] name@[i]))),
{
    if name.len() == 0 {
        return true;
    }
    if name.len() > max_len as usize {
        return false;
    }
    let n = name.unicode_len();
    let mut i: usize = 0;
    while i < n
        invariant
            n == name@.len(),
            i <= n,
            name.len() != 0,
            name.len() <= max_len,
            forall|j: int| 0 <= j < i ==> !is_markup_char(#[trigger] name@[j]),
        decreases n - i,
    {
        let c = name.get_char(i);
        if c == '<' || c == '>' {
            assert(is_markup_char(name@[i as int]));
            return false;
        }
        i = i + 1;
    }
    true
}

} // verus!
