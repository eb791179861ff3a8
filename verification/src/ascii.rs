//! Reduction of arbitrary text to its ASCII characters.

use vstd::prelude::*;
use vstd::string::*;

verus! {

/// Whether `c` is one of the 128 ASCII characters.
pub open spec fn is_ascii_char(c: char) -> bool {
    c <= '\u{7f}'
}

/// The ASCII characters of `s`, in their order; every other character is
/// left out.
pub open spec fn ascii_only(s: Seq<char>) -> Seq<char> {
    s.filter(|c: char| is_ascii_char(c))
}

/// `String::push` appends exactly the given character and changes nothing
/// else of the string.
pub assume_specification[ std::string::String::push ](s: &mut std::string::String, c: char)
    ensures
        final(s)@ == old(s)@.push(c),
;

/// Tests one character for membership in ASCII.
pub fn is_ascii(c: char) -> (b: bool)
    ensures
        b == is_ascii_char(c),
        '\0' <= c,
{
    c <= '\u{7f}'
}

/// Copies `s` without its non-ASCII characters.
pub fn to_ascii_chars(s: &str) -> (out: String)
    ensures
        out@ == ascii_only(s@),
        out.is_ascii(),
{
    broadcast use vstd::string::group_string_axioms;

    let mut out = String::new();
    for c in it: s.chars()
        invariant
            it.seq() == s@,
            out@ == ascii_only(s@.take(it.index() as int)),
            out.is_ascii(),
    {
        proof {
            let pred = |c: char| is_ascii_char(c);
            let prefix = s@.take(it.index() as int);
            assert(s@.take(it.index() + 1) =~= prefix.push(c));
            Seq::lemma_filter_push(prefix, c, pred);
        }
        if is_ascii(c) {
            let ghost kept = out@;
            out.push(c);
            assert forall|i: int| 0 <= i < out@.len() implies '\0' <= #[trigger] out@[i]
                <= '\u{7f}' by {
                if i < kept.len() {
                    assert(out@[i] == kept[i]);
                }
            }
        }
    }
    proof {
        assert(s@.take(s@.len() as int) =~= s@);
    }
    out
}

} // verus!
