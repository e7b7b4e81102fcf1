//! Words as a shell reads them back.

use vstd::prelude::*;

use crate::text;

verus! {

/// A word as a shell reads it back.
pub uninterp spec fn quoted_word(word: Seq<char>) -> Seq<char>;

/// The characters, where a word could be quoted.
pub open spec fn quote_outcome(word: Seq<char>) -> Option<Seq<char>> {
    if word.contains('\0') {
        None
    } else {
        Some(quoted_word(word))
    }
}

/// `shlex::try_quote` fails for a word that holds the character zero and for no
/// other. What it gives else is a function of the word, named `quoted_word`.
#[verifier::external_body]
pub(crate) fn quote_word(word: &str) -> (r: Option<String>)
    ensures
        r is None <==> word@.contains('\0'),
        r is Some ==> text::opt_view(r) == Some(quoted_word(word@)),
{
    shlex::try_quote(word).ok().map(|quoted| quoted.into_owned())
}

/// Whether one of the words holds the character zero.
pub open spec fn holds_zero(words: Seq<Seq<char>>) -> bool {
    exists|i: int| 0 <= i < words.len() && (#[trigger] words[i]).contains('\0')
}

/// The words, each quoted, with a space between them.
pub open spec fn quoted_words(words: Seq<Seq<char>>) -> Seq<char> {
    text::joined(words.map_values(|w: Seq<char>| quoted_word(w)), " "@)
}

/// `shlex::try_join` quotes each of the words as `shlex::try_quote` does, and
/// puts a space between them. It fails where that does for one of them.
#[verifier::external_body]
pub(crate) fn join_words(words: &Vec<String>) -> (r: Option<String>)
    ensures
        r is None <==> holds_zero(text::views(words@)),
        r is Some ==> text::opt_view(r) == Some(quoted_words(text::views(words@))),
{
    shlex::try_join(words.iter().map(|word| word.as_str())).ok()
}

} // verus!
