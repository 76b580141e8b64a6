//! Joining words with single spaces.

use crate::words::{
    all_words, is_word, lemma_words_concat, lemma_words_of_blank, lemma_words_of_word, words_of,
};
use vstd::prelude::*;

verus! {

/// The members of `words` in order, with one space between neighbours.
pub open spec fn joined(words: Seq<Seq<char>>) -> Seq<char>
    decreases words.len(),
{
    if words.len() == 0 {
        Seq::empty()
    } else if words.len() == 1 {
        words[0]
    } else {
        joined(words.drop_last()) + seq![' '] + words.last()
    }
}

/// No space at either end of `s`, and no space next to a space.
pub open spec fn single_spaced(s: Seq<char>) -> bool {
    &&& s.len() > 0 ==> s[0] != ' ' && s.last() != ' '
    &&& forall|i: int| 0 <= i < s.len() - 1 ==> !(#[trigger] s[i] == ' ' && s[i + 1] == ' ')
}

/// Joins `words` with single spaces.
pub fn join_words(words: &Vec<String>) -> (line: String)
    ensures
        line@ == joined(words.deep_view()),
{
    let mut line = String::new();
    for i in 0..words.len()
        invariant
            line@ == joined(words.deep_view().take(i as int)),
    {
        let ghost before = words.deep_view().take(i as int);
        let ghost now = words.deep_view().take(i + 1);
        assert(now.drop_last() == before);
        assert(now.last() == words[i as int]@);
        if i > 0 {
            line.push(' ');
        }
        line.append(words[i].as_str());
        assert(line@ == joined(now)) by {
            if i == 0 {
                assert(Seq::<char>::empty() + words[0]@ == words[0]@);
            }
        }
    }
    assert(words.deep_view().take(words.len() as int) == words.deep_view());
    line
}

/// Joined words are single-spaced.
pub proof fn lemma_joined_single_spaced(words: Seq<Seq<char>>)
    requires
        all_words(words),
    ensures
        single_spaced(joined(words)),
        words.len() > 0 ==> joined(words).len() > 0,
    decreases words.len(),
{
    if words.len() == 1 {
        assert(is_word(words[0]));
    } else if words.len() > 1 {
        let init = words.drop_last();
        assert forall|i: int| 0 <= i < init.len() implies is_word(#[trigger] init[i]) by {
            assert(init[i] == words[i]);
        }
        lemma_joined_single_spaced(init);
        let last = words.last();
        assert(is_word(last));
        let head = joined(init) + seq![' '];
        let s = joined(words);
        assert(s == head + last);
        assert forall|i: int| 0 <= i < s.len() - 1 implies !(#[trigger] s[i] == ' ' && s[i + 1]
            == ' ') by {
            if i < joined(init).len() - 1 {
                assert(s[i] == joined(init)[i]);
                assert(s[i + 1] == joined(init)[i + 1]);
            } else if i == joined(init).len() - 1 {
                assert(s[i] == joined(init).last());
            } else if i == joined(init).len() {
                assert(s[i + 1] == last[0]);
            } else {
                assert(s[i] == last[i - head.len()]);
            }
        }
        assert(s[0] == joined(init)[0]);
        assert(s.last() == last.last());
    }
}

/// Splitting undoes joining: the words of joined words are those words.
pub proof fn lemma_words_of_joined(words: Seq<Seq<char>>)
    requires
        all_words(words),
    ensures
        words_of(joined(words)) == words,
    decreases words.len(),
{
    if words.len() == 0 {
    } else if words.len() == 1 {
        assert(is_word(words[0]));
        lemma_words_of_word(words[0]);
    } else {
        let init = words.drop_last();
        let last = words.last();
        assert forall|i: int| 0 <= i < init.len() implies is_word(#[trigger] init[i]) by {
            assert(init[i] == words[i]);
        }
        assert(is_word(last));
        lemma_words_of_joined(init);
        lemma_words_of_word(last);
        lemma_words_of_blank(seq![' ']);
        lemma_words_concat(joined(init), seq![' ']);
        lemma_words_concat(joined(init) + seq![' '], last);
        assert(init + Seq::<Seq<char>>::empty() + seq![last] == words);
    }
}

} // verus!
