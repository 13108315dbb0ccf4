//! Character-level helpers over `String` views.

use vstd::prelude::*;

verus! {

/// Whether a character has the Unicode `White_Space` property.
pub uninterp spec fn is_white_space(c: char) -> bool;

/// Relies on `char::is_whitespace`: the answer depends on the character alone,
/// and the ASCII space is whitespace.
#[verifier::external_body]
fn char_is_whitespace(c: char) -> (r: bool)
    ensures
        r == is_white_space(c),
        c == ' ' ==> r,
{
    c.is_whitespace()
}

/// The characters of `s` that are not whitespace, in their order.
pub open spec fn strip_white_space(s: Seq<char>) -> Seq<char> {
    s.filter(|c: char| !is_white_space(c))
}

/// Removes every whitespace character from `s`.
pub fn remove_whitespace(s: &str) -> (r: String)
    ensures
        r@ == strip_white_space(s@),
{
    let n = s.unicode_len();
    let mut out = String::new();
    let mut i: usize = 0;
    while i < n
        invariant
            n == s@.len(),
            i <= n,
            out@ == strip_white_space(s@.subrange(0, i as int)),
        decreases n - i,
    {
        let c = s.get_char(i);
        proof {
            assert(s@.subrange(0, i + 1) == s@.subrange(0, i as int).push(c));
            s@.subrange(0, i as int).lemma_filter_push(c, |c: char| !is_white_space(c));
        }
        if !char_is_whitespace(c) {
            let one = s.substring_char(i, i + 1);
            out.append(one);
            assert(one@ == seq![c]);
        }
        i = i + 1;
    }
    assert(s@.subrange(0, n as int) == s@);
    out
}

} // verus!

verus! {

/// Whether two strings hold the same characters.
pub fn same_text(a: &str, b: &str) -> (r: bool)
    ensures
        r == (a@ == b@),
{
    a.to_owned() == b.to_owned()
}

} // verus!
