//! Card-label helpers. A pick with a blank label (empty after trimming)
//! clears a participant's selection instead of recording one.

use vstd::prelude::*;

verus! {

/// The label with leading and trailing whitespace removed; what
/// `str::trim` returns, a function of the characters alone.
pub uninterp spec fn trimmed_of(s: Seq<char>) -> Seq<char>;

/// Relies on str::trim: removes leading and trailing whitespace; the
/// result depends on the characters alone, and trimming an empty string
/// leaves it empty.
#[verifier::external_body]
fn trim_label(s: &str) -> (r: &str)
    ensures
        r@ == trimmed_of(s@),
        s@.len() == 0 ==> r@.len() == 0,
{
    s.trim()
}

/// Whether a card label is blank, that is, empty after trimming.
pub fn label_is_blank(s: &str) -> (r: bool)
    ensures
        r == (trimmed_of(s@).len() == 0),
{
    trim_label(s).is_empty()
}

} // verus!
