//! The cell normalizer: from the raw text of one table cell to a single
//! line without entities and without surplus white space.

use crate::text::{
    chars_of, is_space, is_whitespace, matches_at, replace_chars, replace_from, replaced, string_of,
};
use vstd::prelude::*;

verus! {

/// `s` with every run of white space turned into one space, and without
/// white space at its start.
pub open spec fn squeezed(s: Seq<char>) -> Seq<char>
    decreases s.len(),
{
    if s.len() == 0 {
        Seq::empty()
    } else {
        let head = squeezed(s.drop_last());
        let c = s.last();
        if !is_space(c) {
            head.push(c)
        } else if head.len() == 0 || head.last() == ' ' {
            head
        } else {
            head.push(' ')
        }
    }
}

/// `s` without the one space that it may end with.
pub open spec fn without_last_space(s: Seq<char>) -> Seq<char> {
    if s.len() > 0 && s.last() == ' ' {
        s.drop_last()
    } else {
        s
    }
}

/// `s` with the entities for a no-break space and for a quotation mark
/// written out.
pub open spec fn decoded(s: Seq<char>) -> Seq<char> {
    replaced(replaced(s, "&nbsp;"@, " "@), "&quot;"@, "\""@)
}

/// The clean text of a cell: entities written out, every run of white space
/// (line breaks and tabs included) turned into one space, and no white
/// space at either end.
pub open spec fn normalized(s: Seq<char>) -> Seq<char> {
    without_last_space(squeezed(decoded(s)))
}

/// The text is a single clean line: all its white space is single spaces
/// between other characters.
pub open spec fn is_clean(s: Seq<char>) -> bool {
    &&& forall|k: int| 0 <= k < s.len() && is_space(#[trigger] s[k]) ==> s[k] == ' '
    &&& forall|k: int| 0 <= k < s.len() - 1 ==> !(#[trigger] s[k] == ' ' && s[k + 1] == ' ')
    &&& s.len() > 0 ==> s.first() != ' ' && s.last() != ' '
}

/// What squeezing leaves: white space only as single spaces, none at the
/// start, and at most one at the end.
pub proof fn lemma_squeezed(s: Seq<char>)
    ensures
        forall|k: int|
            0 <= k < squeezed(s).len() && is_space(#[trigger] squeezed(s)[k]) ==> squeezed(s)[k]
                == ' ',
        forall|k: int|
            0 <= k < squeezed(s).len() - 1 ==> !(#[trigger] squeezed(s)[k] == ' ' && squeezed(
                s,
            )[k + 1] == ' '),
        squeezed(s).len() > 0 ==> squeezed(s).first() != ' ',
        squeezed(s).len() <= s.len(),
    decreases s.len(),
{
    if s.len() > 0 {
        lemma_squeezed(s.drop_last());
        let head = squeezed(s.drop_last());
        let out = squeezed(s);
        assert forall|k: int| 0 <= k < out.len() - 1 implies !(#[trigger] out[k] == ' ' && out[k
            + 1] == ' ') by {
            if k + 1 < head.len() {
                assert(out[k] == head[k] && out[k + 1] == head[k + 1]);
            }
        }
        assert forall|k: int| 0 <= k < out.len() && is_space(#[trigger] out[k]) implies out[k]
            == ' ' by {
            if k < head.len() {
                assert(out[k] == head[k]);
            }
        }
    }
}

/// A normalized text is a single clean line, and never longer than the
/// text with its entities written out.
pub proof fn lemma_normalized_is_clean(s: Seq<char>)
    ensures
        is_clean(normalized(s)),
{
    let q = squeezed(decoded(s));
    lemma_squeezed(decoded(s));
    let out = normalized(s);
    if q.len() > 0 && q.last() == ' ' {
        assert forall|k: int| 0 <= k < out.len() implies out[k] == q[k] by {}
        if out.len() > 0 {
            assert(!(q[out.len() - 1] == ' ' && q[out.len() - 1 + 1] == ' '));
        }
    }
}

/// A text of white space alone squeezes to nothing.
pub proof fn lemma_blank_squeezes_to_nothing(s: Seq<char>)
    requires
        forall|k: int| 0 <= k < s.len() ==> is_space(#[trigger] s[k]),
    ensures
        squeezed(s) == Seq::<char>::empty(),
    decreases s.len(),
{
    if s.len() > 0 {
        assert forall|k: int| 0 <= k < s.drop_last().len() implies is_space(
            #[trigger] s.drop_last()[k],
        ) by {
            assert(s.drop_last()[k] == s[k]);
        }
        lemma_blank_squeezes_to_nothing(s.drop_last());
        assert(is_space(s[s.len() - 1]));
    }
}

/// Replacing a pattern that starts with a character that the text does not
/// hold changes nothing.
pub proof fn lemma_replace_absent(s: Seq<char>, pat: Seq<char>, rep: Seq<char>, i: int)
    requires
        pat.len() > 0,
        forall|k: int| 0 <= k < s.len() ==> #[trigger] s[k] != pat[0],
        0 <= i <= s.len(),
    ensures
        replace_from(s, pat, rep, i) == s.subrange(i, s.len() as int),
    decreases s.len() - i,
{
    if i < s.len() {
        if matches_at(s, pat, i) {
            assert(s.subrange(i, i + pat.len())[0] == pat[0]);
            assert(s[i] == pat[0]);
        }
        lemma_replace_absent(s, pat, rep, i + 1);
        assert(s.subrange(i, s.len() as int) == seq![s[i]] + s.subrange(i + 1, s.len() as int));
    }
}

/// An empty cell, or one of white space alone, normalizes to the empty
/// text.
pub proof fn lemma_blank_normalizes_to_nothing(s: Seq<char>)
    requires
        forall|k: int| 0 <= k < s.len() ==> is_space(#[trigger] s[k]),
    ensures
        normalized(s) == Seq::<char>::empty(),
{
    reveal_strlit("&nbsp;");
    reveal_strlit("&quot;");
    assert(!is_space('&'));
    lemma_replace_absent(s, "&nbsp;"@, " "@, 0);
    assert(s.subrange(0, s.len() as int) == s);
    lemma_replace_absent(s, "&quot;"@, "\""@, 0);
    lemma_blank_squeezes_to_nothing(s);
}

/// Turns runs of white space into single spaces and drops white space at
/// both ends.
pub fn squeeze(s: &Vec<char>) -> (out: Vec<char>)
    ensures
        out@ == without_last_space(squeezed(s@)),
{
    let mut out: Vec<char> = Vec::new();
    let mut i: usize = 0;
    assert(s@.subrange(0, 0) == Seq::<char>::empty());
    while i < s.len()
        invariant
            i <= s.len(),
            out@ == squeezed(s@.subrange(0, i as int)),
        decreases s.len() - i,
    {
        let c = s[i];
        proof {
            let p = s@.subrange(0, i + 1);
            assert(p.drop_last() == s@.subrange(0, i as int));
            assert(p.last() == c);
        }
        if !is_whitespace(c) {
            out.push(c);
        } else if out.len() > 0 && out[out.len() - 1] != ' ' {
            out.push(' ');
        }
        i = i + 1;
    }
    assert(s@.subrange(0, s.len() as int) == s@);
    if out.len() > 0 && out[out.len() - 1] == ' ' {
        out.pop();
    }
    out
}

/// Cleans the text of one table cell, given as characters.
pub fn normalize_chars(text: &Vec<char>) -> (out: Vec<char>)
    ensures
        out@ == normalized(text@),
{
    let nbsp = chars_of("&nbsp;");
    let space = chars_of(" ");
    let quot = chars_of("&quot;");
    let mark = chars_of("\"");
    let step = replace_chars(text, &nbsp, &space);
    let step = replace_chars(&step, &quot, &mark);
    squeeze(&step)
}

/// Cleans the text of one table cell.
pub fn normalize(text: String) -> (out: String)
    ensures
        out@ == normalized(text@),
        is_clean(out@),
{
    let chars = chars_of(text.as_str());
    proof {
        lemma_normalized_is_clean(text@);
    }
    string_of(&normalize_chars(&chars))
}

} // verus!
