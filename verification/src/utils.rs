//! Undo column wrapping in pre-wrapped text while keeping intentional
//! paragraph breaks.

use vstd::prelude::*;

verus! {

/// The text with column wrapping removed: a newline becomes a space
/// exactly when it does not touch another newline and does not open the
/// text, so blank lines (paragraph breaks) survive.
pub open spec fn spec_unwrapped(s: Seq<char>) -> Seq<char> {
    Seq::new(
        s.len(),
        |i: int|
            if s[i] == '\n' && i > 0 && s[i - 1] != '\n' && !(i + 1 < s.len() && s[i + 1]
                == '\n') {
                ' '
            } else {
                s[i]
            },
    )
}

/// Remove column wrapping from `string`: every newline that is part of
/// neither a leading newline nor a blank line is replaced by a space.
pub fn remove_column_wrapping(string: &str) -> (r: String)
    ensures
        r@ == spec_unwrapped(string@),
{
    let v = crate::text::chars_of(string);
    let n = v.len();
    let mut out: Vec<char> = Vec::new();
    let mut i: usize = 0;
    while i < n
        invariant
            n == v@.len(),
            v@ == string@,
            0 <= i <= n,
            out@ =~= spec_unwrapped(string@).take(i as int),
        decreases n - i,
    {
        let c = v[i];
        let unwrap_here = c == '\n' && i > 0 && v[i - 1] != '\n' && !(i + 1 < n && v[i + 1]
            == '\n');
        if unwrap_here {
            out.push(' ');
        } else {
            out.push(c);
        }
        proof {
            assert(out@ =~= spec_unwrapped(string@).take(i + 1));
        }
        i += 1;
    }
    proof {
        assert(spec_unwrapped(string@).take(n as int) =~= spec_unwrapped(string@));
    }
    crate::text::string_of(&out)
}

} // verus!
