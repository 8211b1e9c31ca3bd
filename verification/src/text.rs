//! Reading a text by position.

use vstd::prelude::*;

verus! {

/// Whether two texts hold the same characters.
pub fn same_text(a: &str, b: &str) -> (same: bool)
    ensures
        same == (a@ == b@),
{
    let n = a.unicode_len();
    if n != b.unicode_len() {
        return false;
    }
    let plain = a.is_ascii() && b.is_ascii();
    let mut i: usize = 0;
    while i < n
        invariant
            n == a@.len(),
            n == b@.len(),
            i <= n,
            plain ==> a.is_ascii() && b.is_ascii(),
            forall|j: int| 0 <= j < i ==> a@[j] == b@[j],
        decreases n - i,
    {
        if char_at(a, plain, i) != char_at(b, plain, i) {
            return false;
        }
        i += 1;
    }
    assert(a@ =~= b@);
    true
}

/// The character at a position. Where the text is known to be plain ASCII
/// the lookup takes constant time.
pub(crate) fn char_at(s: &str, plain: bool, i: usize) -> (c: char)
    requires
        plain ==> s.is_ascii(),
        i < s@.len(),
    ensures
        c == s@[i as int],
{
    if plain {
        let b = s.get_ascii(i);
        let c = b as char;
        assert(c == s@[i as int]) by {
            let x = s@[i as int];
            assert('\0' <= x <= '\u{7f}');
        }
        c
    } else {
        s.get_char(i)
    }
}

/// A copy of the characters from `from` up to `to`.
pub(crate) fn part_of(s: &str, plain: bool, from: usize, to: usize) -> (part: String)
    requires
        plain ==> s.is_ascii(),
        from <= to <= s@.len(),
    ensures
        part@ == s@.subrange(from as int, to as int),
{
    if plain {
        String::from_str(s.substring_ascii(from, to))
    } else {
        String::from_str(s.substring_char(from, to))
    }
}

} // verus!
