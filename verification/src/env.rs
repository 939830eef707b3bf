//! Configuration values: the list of watched group names.

use crate::text::{chars_of, split, split_chars, string_of, texts, trim, trim_chars, views};
use vstd::prelude::*;

verus! {

/// The names that a list written with semicolons holds: its pieces, each
/// without white space around it.
pub open spec fn names_in(raw: Seq<char>) -> Seq<Seq<char>> {
    Seq::new(split(raw, ';').len(), |k: int| trim(split(raw, ';')[k]))
}

/// The watched names that a configuration value gives: the names of the
/// list, or none where the value is not set.
pub open spec fn names_of(raw: Option<Seq<char>>) -> Seq<Seq<char>> {
    match raw {
        Some(s) => names_in(s),
        None => Seq::empty(),
    }
}

/// The value of an optional text slice.
pub open spec fn str_view(raw: Option<&str>) -> Option<Seq<char>> {
    match raw {
        Some(s) => Some(s@),
        None => None,
    }
}

/// Reads the list of watched group names off the value of its
/// configuration variable: names parted by semicolons, white space around
/// them dropped. A variable that is not set gives the empty list.
pub fn parse_var(raw: Option<&str>) -> (out: Vec<String>)
    ensures
        texts(out@) == names_of(str_view(raw)),
{
    let mut out: Vec<String> = Vec::new();
    let s = match raw {
        Some(s) => s,
        None => {
            assert(texts(out@) =~= Seq::<Seq<char>>::empty());
            return out;
        },
    };
    let chars = chars_of(s);
    let pieces = split_chars(&chars, ';');
    let ghost model = views(pieces@);
    let mut i: usize = 0;
    while i < pieces.len()
        invariant
            i <= pieces.len(),
            model == views(pieces@),
            out@.len() == i,
            forall|k: int| 0 <= k < i ==> (#[trigger] out@[k])@ == trim(model[k]),
        decreases pieces.len() - i,
    {
        assert(model[i as int] == pieces@[i as int]@);
        out.push(string_of(&trim_chars(&pieces[i])));
        i = i + 1;
    }
    assert(texts(out@) =~= names_in(s@));
    out
}

} // verus!
