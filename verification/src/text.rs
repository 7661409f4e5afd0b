//! Small operations on text, over its characters.

use vstd::prelude::*;
use vstd::string::StrSliceExecFns;

verus! {

/// The place of the first `sep` at or after `from`, or the length of the text
/// where there is none.
pub open spec fn first_at(text: Seq<char>, sep: char, from: int) -> int
    decreases text.len() - from,
{
    if from < 0 || from >= text.len() {
        text.len() as int
    } else if text[from] == sep {
        from
    } else {
        first_at(text, sep, from + 1)
    }
}

/// The text before and the text after its first `sep`, if it has one.
pub open spec fn split_at_first(text: Seq<char>, sep: char) -> Option<(Seq<char>, Seq<char>)> {
    let at = first_at(text, sep, 0);
    if at < text.len() {
        Some((text.take(at), text.skip(at + 1)))
    } else {
        None
    }
}

/// What `first_at` finds: a `sep` with none between `from` and it, or the end
/// of a text that has none from `from` on.
pub proof fn lemma_first_at(text: Seq<char>, sep: char, from: int)
    requires
        0 <= from <= text.len(),
    ensures
        from <= first_at(text, sep, from) <= text.len(),
        first_at(text, sep, from) < text.len() ==> text[first_at(text, sep, from)] == sep,
        forall|i: int| from <= i < first_at(text, sep, from) ==> text[i] != sep,
    decreases text.len() - from,
{
    if from < text.len() && text[from] != sep {
        lemma_first_at(text, sep, from + 1);
    }
}

/// Whether the two texts are the same.
pub fn same_text(a: &str, b: &str) -> (same: bool)
    ensures
        same == (a@ == b@),
{
    a.to_owned() == b.to_owned()
}

/// The text before and the text after the first `sep`, if there is one.
pub fn split_once<'a>(text: &'a str, sep: char) -> (parts: Option<(&'a str, &'a str)>)
    ensures
        match parts {
            Some((head, tail)) => split_at_first(text@, sep) == Some((head@, tail@)),
            None => split_at_first(text@, sep).is_none(),
        },
{
    let n = text.unicode_len();
    let mut i: usize = 0;
    while i < n
        invariant
            i <= n,
            n == text@.len(),
            first_at(text@, sep, 0) == first_at(text@, sep, i as int),
        decreases n - i,
    {
        if text.get_char(i) == sep {
            let head = text.substring_char(0, i);
            let tail = text.substring_char(i + 1, n);
            return Some((head, tail));
        }
        i += 1;
    }
    None
}

} // verus!
