//! Splitting text into words at white space.
//!
//! `words_of` says what the words of a text are. Three laws fix it on every
//! text: white space alone holds no word, a word is its own only word, and
//! where two texts meet at white space the words of the whole are the words
//! of the parts.

use crate::whitespace::{is_white_space, is_whitespace};
use vstd::prelude::*;

verus! {

/// A run of characters none of which is white space.
pub open spec fn is_solid(s: Seq<char>) -> bool {
    forall|i: int| 0 <= i < s.len() ==> !is_white_space(#[trigger] s[i])
}

/// A word: a run that is solid and not empty.
pub open spec fn is_word(s: Seq<char>) -> bool {
    s.len() > 0 && is_solid(s)
}

/// Text that is white space throughout; the empty text is.
pub open spec fn is_blank(s: Seq<char>) -> bool {
    forall|i: int| 0 <= i < s.len() ==> is_white_space(#[trigger] s[i])
}

/// Every member of `words` is solid.
pub open spec fn all_solid(words: Seq<Seq<char>>) -> bool {
    forall|i: int| 0 <= i < words.len() ==> is_solid(#[trigger] words[i])
}

/// Every member of `words` is a word.
pub open spec fn all_words(words: Seq<Seq<char>>) -> bool {
    forall|i: int| 0 <= i < words.len() ==> is_word(#[trigger] words[i])
}

/// The length of the longest solid prefix of `s`.
pub open spec fn word_len(s: Seq<char>) -> nat
    decreases s.len(),
{
    if s.len() == 0 || is_white_space(s[0]) {
        0
    } else {
        1 + word_len(s.skip(1))
    }
}

/// The words of `s`, in order: its maximal solid runs. White space before a
/// word is passed over; the word is the longest solid prefix of what is left.
pub open spec fn words_of(s: Seq<char>) -> Seq<Seq<char>>
    decreases s.len(),
    via words_of_decreases
{
    if s.len() == 0 {
        Seq::empty()
    } else if is_white_space(s[0]) {
        words_of(s.skip(1))
    } else {
        seq![s.take(word_len(s) as int)] + words_of(s.skip(word_len(s) as int))
    }
}

#[via_fn]
proof fn words_of_decreases(s: Seq<char>) {
    lemma_word_len(s);
}

/// `word_len(s)` marks the end of the longest solid prefix: everything before
/// it is solid, and what stands at it, if anything, is white space.
pub proof fn lemma_word_len(s: Seq<char>)
    ensures
        word_len(s) <= s.len(),
        s.len() > 0 && !is_white_space(s[0]) ==> word_len(s) >= 1,
        is_solid(s.take(word_len(s) as int)),
        word_len(s) < s.len() ==> is_white_space(s[word_len(s) as int]),
    decreases s.len(),
{
    if s.len() == 0 || is_white_space(s[0]) {
    } else {
        let rest = s.skip(1);
        lemma_word_len(rest);
        let n = word_len(s) as int;
        assert forall|i: int| 0 <= i < n implies !is_white_space(#[trigger] s.take(n)[i]) by {
            if i > 0 {
                assert(s.take(n)[i] == rest.take(n - 1)[i - 1]);
            }
        }
        if n < s.len() {
            assert(s[n] == rest[n - 1]);
        }
    }
}

/// Every member of `words_of(s)` is a word.
pub proof fn lemma_words_are_words(s: Seq<char>)
    ensures
        all_words(words_of(s)),
    decreases s.len(),
{
    if s.len() == 0 {
    } else if is_white_space(s[0]) {
        lemma_words_are_words(s.skip(1));
    } else {
        lemma_word_len(s);
        let n = word_len(s) as int;
        lemma_words_are_words(s.skip(n));
    }
}

/// A solid prefix `a` runs on into `b`; a prefix that is not solid ends its
/// first run by itself.
pub proof fn lemma_word_len_concat(a: Seq<char>, b: Seq<char>)
    ensures
        word_len(a + b) == if word_len(a) < a.len() {
            word_len(a)
        } else {
            a.len() + word_len(b)
        },
    decreases a.len(),
{
    lemma_word_len(a);
    if a.len() == 0 {
        assert(a + b == b);
    } else if is_white_space(a[0]) {
    } else {
        assert((a + b).skip(1) == a.skip(1) + b);
        lemma_word_len_concat(a.skip(1), b);
    }
}

/// Where two texts meet at white space, or one of them is empty, the words of
/// the whole are the words of the first followed by the words of the second.
pub proof fn lemma_words_concat(a: Seq<char>, b: Seq<char>)
    requires
        a.len() == 0 || b.len() == 0 || is_white_space(a.last()) || is_white_space(b[0]),
    ensures
        words_of(a + b) == words_of(a) + words_of(b),
    decreases a.len(),
{
    if a.len() == 0 {
        assert(a + b == b);
    } else if is_white_space(a[0]) {
        assert((a + b).skip(1) == a.skip(1) + b);
        lemma_words_concat(a.skip(1), b);
    } else {
        lemma_word_len(a);
        lemma_word_len(b);
        lemma_word_len_concat(a, b);
        let n = word_len(a) as int;
        if n == a.len() {
            assert(a.take(n) == a);
            assert(!is_white_space(a[n - 1]));
        }
        assert((a + b).take(n) == a.take(n));
        assert((a + b).skip(n) == a.skip(n) + b);
        lemma_words_concat(a.skip(n), b);
    }
}

/// A word is the only word of itself.
pub proof fn lemma_words_of_word(w: Seq<char>)
    requires
        is_word(w),
    ensures
        words_of(w) == seq![w],
{
    lemma_word_len(w);
    let n = word_len(w) as int;
    assert(n == w.len());
    assert(w.take(n) == w);
    assert(words_of(w.skip(n)) == Seq::<Seq<char>>::empty());
    assert(seq![w] + Seq::<Seq<char>>::empty() == seq![w]);
}

/// Blank text holds no word.
pub proof fn lemma_words_of_blank(s: Seq<char>)
    requires
        is_blank(s),
    ensures
        words_of(s) == Seq::<Seq<char>>::empty(),
    decreases s.len(),
{
    if s.len() > 0 {
        lemma_words_of_blank(s.skip(1));
    }
}

/// After a prefix that ends at white space, a solid run adds itself to the
/// words as one word, unless it is empty.
proof fn lemma_words_then_run(prefix: Seq<char>, run: Seq<char>)
    requires
        prefix.len() == 0 || is_white_space(prefix.last()),
        is_solid(run),
    ensures
        words_of(prefix + run) == if run.len() > 0 {
            words_of(prefix).push(run)
        } else {
            words_of(prefix)
        },
{
    lemma_words_concat(prefix, run);
    if run.len() > 0 {
        lemma_words_of_word(run);
        assert(words_of(prefix) + seq![run] == words_of(prefix).push(run));
    } else {
        assert(words_of(prefix) + words_of(run) == words_of(prefix));
    }
}

/// Splits `text` into its words.
pub fn split_words(text: &str) -> (words: Vec<String>)
    ensures
        words.deep_view() == words_of(text@),
{
    let mut words: Vec<String> = Vec::new();
    let mut current = String::new();
    let ghost mut start: int = 0;
    for c in it: text.chars()
        invariant
            it.seq() == text@,
            0 <= start <= it.index(),
            start == 0 || is_white_space(text@[start - 1]),
            current@ == text@.subrange(start, it.index() as int),
            is_solid(current@),
            words.deep_view() == words_of(text@.take(start)),
    {
        let ghost seen = text@.take(it.index() as int);
        let ghost done = words.deep_view();
        if is_whitespace(c) {
            proof {
                lemma_words_then_run(text@.take(start), current@);
                assert(text@.take(start) + current@ == seen);
                lemma_words_concat(seen, seq![c]);
                lemma_words_of_blank(seq![c]);
                assert(seen + seq![c] == text@.take(it.index() + 1));
                assert(words_of(seen) + words_of(seq![c]) == words_of(seen));
            }
            if !current.as_str().is_empty() {
                words.push(current);
                current = String::new();
                assert(words.deep_view() == done.push(text@.subrange(start, it.index() as int)));
            }
            proof {
                start = it.index() + 1;
            }
        } else {
            current.push(c);
            assert(current@ == text@.subrange(start, it.index() + 1));
        }
    }
    proof {
        lemma_words_then_run(text@.take(start), current@);
        assert(text@.take(start) + current@ == text@);
    }
    let ghost done = words.deep_view();
    if !current.as_str().is_empty() {
        words.push(current);
        assert(words.deep_view() == done.push(text@.subrange(start, text@.len() as int)));
    }
    words
}

} // verus!
