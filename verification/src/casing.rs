//! Capitalising words: the first character gives way to its uppercase
//! mapping, the rest of the word stays as it is.

use crate::trusted::{to_uppercase, uppercase_mapping};
use crate::words::{all_words, is_word};
use vstd::prelude::*;

verus! {

/// `word` with `initial` in the place of its first character. An empty word
/// has no first character and stays empty.
pub open spec fn with_initial(word: Seq<char>, initial: Seq<char>) -> Seq<char> {
    if word.len() == 0 {
        word
    } else {
        initial + word.skip(1)
    }
}

/// `word` with the uppercase mapping of its first character in that
/// character's place.
pub open spec fn capitalized(word: Seq<char>) -> Seq<char> {
    if word.len() == 0 {
        word
    } else {
        with_initial(word, uppercase_mapping(word[0]))
    }
}

/// The members of `words` that are not empty, each capitalised, in order.
pub open spec fn capitalized_words(words: Seq<Seq<char>>) -> Seq<Seq<char>>
    decreases words.len(),
{
    if words.len() == 0 {
        Seq::empty()
    } else if words.last().len() == 0 {
        capitalized_words(words.drop_last())
    } else {
        capitalized_words(words.drop_last()).push(capitalized(words.last()))
    }
}

/// Puts `initial` in the place of the first character of `word`.
pub fn replace_initial(word: &str, initial: &str) -> (out: String)
    ensures
        out@ == with_initial(word@, initial@),
{
    if word.is_empty() {
        String::new()
    } else {
        let mut out = initial.to_owned();
        out.append(word.substring_char(1, word.unicode_len()));
        out
    }
}

/// Capitalises `word`. A word that is not empty does not get shorter.
pub fn capitalize(word: &str) -> (out: String)
    ensures
        out@ == capitalized(word@),
        out@.len() >= word@.len(),
{
    if word.is_empty() {
        String::new()
    } else {
        let upper = to_uppercase(word.get_char(0));
        replace_initial(word, upper.as_str())
    }
}

/// Capitalises every word of `words` and leaves out the empty ones, so that
/// no member of the result is empty.
pub fn capitalize_words(words: &Vec<String>) -> (out: Vec<String>)
    ensures
        out.deep_view() == capitalized_words(words.deep_view()),
        forall|i: int| 0 <= i < out.len() ==> (#[trigger] out[i])@.len() > 0,
{
    let mut out: Vec<String> = Vec::new();
    for i in 0..words.len()
        invariant
            out.deep_view() == capitalized_words(words.deep_view().take(i as int)),
            forall|j: int| 0 <= j < out.len() ==> (#[trigger] out[j])@.len() > 0,
    {
        let ghost before = words.deep_view().take(i as int);
        let ghost now = words.deep_view().take(i + 1);
        let ghost done = out.deep_view();
        assert(now.drop_last() == before);
        assert(now.last() == words[i as int]@);
        if !words[i].as_str().is_empty() {
            let word = capitalize(words[i].as_str());
            out.push(word);
            assert(out.deep_view() == done.push(capitalized(words[i as int]@)));
        }
    }
    assert(words.deep_view().take(words.len() as int) == words.deep_view());
    out
}

/// Of words, none is left out: the result has a member for each, its
/// capitalised form.
pub proof fn lemma_capitalized_words_of_words(words: Seq<Seq<char>>)
    requires
        all_words(words),
    ensures
        capitalized_words(words).len() == words.len(),
        forall|i: int|
            0 <= i < words.len() ==> #[trigger] capitalized_words(words)[i] == capitalized(
                words[i],
            ),
    decreases words.len(),
{
    if words.len() > 0 {
        let init = words.drop_last();
        assert forall|i: int| 0 <= i < init.len() implies is_word(
            #[trigger] init[i],
        ) by {
            assert(init[i] == words[i]);
        }
        lemma_capitalized_words_of_words(init);
        assert(is_word(words.last()));
    }
}

/// Capitalising goes word by word: of two lists in a row it gives what it
/// gives of each, in a row.
pub proof fn lemma_capitalized_words_concat(a: Seq<Seq<char>>, b: Seq<Seq<char>>)
    ensures
        capitalized_words(a + b) == capitalized_words(a) + capitalized_words(b),
    decreases b.len(),
{
    if b.len() == 0 {
        assert(a + b == a);
        assert(capitalized_words(a) + capitalized_words(b) == capitalized_words(a));
    } else {
        assert((a + b).drop_last() == a + b.drop_last());
        lemma_capitalized_words_concat(a, b.drop_last());
        if b.last().len() > 0 {
            assert(capitalized_words(a) + capitalized_words(b.drop_last()).push(
                capitalized(b.last()),
            ) == (capitalized_words(a) + capitalized_words(b.drop_last())).push(
                capitalized(b.last()),
            ));
        }
    }
}

} // verus!
