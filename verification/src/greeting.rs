//! The plain greeting.

use crate::words::{lemma_words_concat, lemma_words_of_blank, lemma_words_of_word, words_of};
use vstd::prelude::*;

verus! {

/// The word that opens every greeting.
pub open spec fn prefix() -> Seq<char> {
    seq!['h', 'e', 'l', 'l', 'o']
}

/// The greeting for `name`: the prefix, one space, and the name as it is.
pub open spec fn greeting_of(name: Seq<char>) -> Seq<char> {
    prefix() + seq![' '] + name
}

/// Greets `name`. Any name is taken, the empty one too.
pub fn hello(name: &str) -> (greeting: String)
    ensures
        greeting@ == greeting_of(name@),
{
    proof {
        reveal_strlit("hello ");
    }
    let mut greeting = "hello ".to_owned();
    assert(greeting@ == prefix() + seq![' ']);
    greeting.append(name);
    greeting
}

/// The words of a greeting are the prefix and then the words of the name.
pub proof fn lemma_words_of_greeting(name: Seq<char>)
    ensures
        words_of(greeting_of(name)) == seq![prefix()] + words_of(name),
{
    lemma_words_of_word(prefix());
    lemma_words_of_blank(seq![' ']);
    lemma_words_concat(prefix(), seq![' ']);
    lemma_words_concat(prefix() + seq![' '], name);
    assert(seq![prefix()] + Seq::<Seq<char>>::empty() == seq![prefix()]);
}

} // verus!
