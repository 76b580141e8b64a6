//! The greeter as a component shows it: the greeting with every word
//! capitalised, single spaces between the words and an exclamation mark at
//! the end.

use crate::casing::{
    capitalize_words, capitalized, capitalized_words, lemma_capitalized_words_concat,
    lemma_capitalized_words_of_words,
};
use crate::greeting::{greeting_of, lemma_words_of_greeting, prefix};
use crate::join::{
    join_words, joined, lemma_joined_single_spaced, lemma_words_of_joined, single_spaced,
};
use crate::words::{
    all_solid, all_words, is_blank, is_solid, is_word, lemma_words_are_words,
    lemma_words_of_blank, split_words, words_of,
};
use vstd::prelude::*;

verus! {

/// The display form of `text`: its words capitalised and joined with single
/// spaces, and an exclamation mark after them.
pub open spec fn formatted(text: Seq<char>) -> Seq<char> {
    joined(capitalized_words(words_of(text))).push('!')
}

/// Gives `greeting` its display form. The result ends with the exclamation
/// mark. What stands before the mark is single-spaced, provided that
/// capitalising put no white space into a word.
pub fn format_greeting(greeting: &str) -> (line: String)
    ensures
        line@ == formatted(greeting@),
        line@.len() > 0,
        line@.last() == '!',
        all_solid(capitalized_words(words_of(greeting@))) ==> single_spaced(line@.drop_last()),
{
    let words = split_words(greeting);
    let capitals = capitalize_words(&words);
    let mut line = join_words(&capitals);
    proof {
        let shown = capitals.deep_view();
        if all_solid(shown) {
            assert forall|i: int| 0 <= i < shown.len() implies is_word(#[trigger] shown[i]) by {
                assert(shown[i] == capitals[i]@);
            }
            lemma_joined_single_spaced(shown);
        }
        assert(line@.push('!').drop_last() == line@);
    }
    line.push('!');
    line
}

/// The greeter behind the component's one operation.
pub struct GreeterComponent;

impl GreeterComponent {
    /// Greets `name` in display form: the greeting for `name`, formatted.
    pub fn hello(name: String) -> (line: String)
        ensures
            line@ == formatted(greeting_of(name@)),
            line@.len() > 0,
            line@.last() == '!',
            all_solid(capitalized_words(words_of(greeting_of(name@)))) ==> single_spaced(
                line@.drop_last(),
            ),
    {
        let greeting = crate::greeting::hello(name.as_str());
        format_greeting(greeting.as_str())
    }
}

/// The display form of a greeting opens with the capitalised prefix; the
/// capitalised words of the name follow it.
pub proof fn lemma_hello_shape(name: Seq<char>)
    ensures
        formatted(greeting_of(name)) == joined(
            seq![capitalized(prefix())] + capitalized_words(words_of(name)),
        ).push('!'),
{
    lemma_words_of_greeting(name);
    lemma_capitalized_words_concat(seq![prefix()], words_of(name));
    assert(capitalized_words(seq![prefix()]) == seq![capitalized(prefix())]) by {
        assert(seq![prefix()].drop_last().len() == 0);
        assert(capitalized_words(seq![prefix()].drop_last()) == Seq::<Seq<char>>::empty());
    }
}

/// A blank name, the empty name among them, is greeted with the capitalised
/// prefix and the mark.
pub proof fn lemma_hello_of_blank_name(name: Seq<char>)
    requires
        is_blank(name),
    ensures
        formatted(greeting_of(name)) == capitalized(prefix()).push('!'),
{
    lemma_hello_shape(name);
    lemma_words_of_blank(name);
    assert(seq![capitalized(prefix())] + capitalized_words(words_of(name)) == seq![
        capitalized(prefix()),
    ]);
}

/// How many spaces `s` holds.
spec fn space_count(s: Seq<char>) -> nat
    decreases s.len(),
{
    if s.len() == 0 {
        0
    } else {
        space_count(s.drop_last()) + if s.last() == ' ' {
            1nat
        } else {
            0nat
        }
    }
}

proof fn lemma_space_count_concat(a: Seq<char>, b: Seq<char>)
    ensures
        space_count(a + b) == space_count(a) + space_count(b),
    decreases b.len(),
{
    if b.len() == 0 {
        assert(a + b == a);
    } else {
        assert((a + b).drop_last() == a + b.drop_last());
        lemma_space_count_concat(a, b.drop_last());
    }
}

proof fn lemma_space_count_solid(s: Seq<char>)
    requires
        is_solid(s),
    ensures
        space_count(s) == 0,
    decreases s.len(),
{
    if s.len() > 0 {
        assert(!crate::whitespace::is_white_space(s.last()));
        lemma_space_count_solid(s.drop_last());
    }
}

/// Joining puts a space between neighbours, so the line holds at least one
/// space fewer than it has members; of solid members, exactly that many.
proof fn lemma_space_count_joined(words: Seq<Seq<char>>)
    requires
        words.len() > 0,
    ensures
        space_count(joined(words)) >= words.len() - 1,
        all_solid(words) ==> space_count(joined(words)) == words.len() - 1,
    decreases words.len(),
{
    if words.len() == 1 {
        if all_solid(words) {
            lemma_space_count_solid(words[0]);
        }
    } else {
        let init = words.drop_last();
        let last = words.last();
        lemma_space_count_joined(init);
        lemma_space_count_concat(joined(init), seq![' ']);
        lemma_space_count_concat(joined(init) + seq![' '], last);
        assert(space_count(seq![' ']) == 1) by {
            let space = seq![' '];
            assert(space.last() == ' ');
            assert(space_count(space.drop_last()) == 0);
        }
        if all_solid(words) {
            assert forall|i: int| 0 <= i < init.len() implies is_solid(#[trigger] init[i]) by {
                assert(init[i] == words[i]);
            }
            lemma_space_count_solid(last);
        }
    }
}

/// Greeting twice is not greeting once: the display form of the greeting for
/// a name is never the display form of the greeting for that display form.
/// The second has one word more, hence one space more. This is shown for
/// every name whose greeting keeps words as words under capitalising.
pub proof fn lemma_hello_twice_differs(name: Seq<char>)
    ensures
        all_words(capitalized_words(words_of(greeting_of(name)))) ==> formatted(
            greeting_of(formatted(greeting_of(name))),
        ) != formatted(greeting_of(name)),
{
    let shown = capitalized_words(words_of(greeting_of(name)));
    if all_words(shown) {
        let once = formatted(greeting_of(name));
        let twice = formatted(greeting_of(once));
        // The first greeting has as many shown words as it has words, at least one.
        lemma_words_of_greeting(name);
        lemma_words_are_words(greeting_of(name));
        lemma_capitalized_words_of_words(words_of(greeting_of(name)));
        let k = shown.len();
        assert(k >= 1);
        // With the mark taken into the last of them, they are the words of `once`.
        let marked = shown.drop_last().push(shown.last().push('!'));
        assert forall|i: int| 0 <= i < marked.len() implies is_word(#[trigger] marked[i]) by {
            if i < k - 1 {
                assert(marked[i] == shown[i]);
            } else {
                assert(is_word(shown[k - 1]));
            }
        }
        assert(joined(marked) == once) by {
            if k > 1 {
                assert(marked.drop_last() == shown.drop_last());
            }
        }
        lemma_words_of_joined(marked);
        // The second greeting has those words and the prefix before them.
        lemma_words_of_greeting(once);
        let again = words_of(greeting_of(once));
        assert(again.len() == k + 1);
        lemma_words_are_words(greeting_of(once));
        lemma_capitalized_words_of_words(again);
        let shown_again = capitalized_words(again);
        lemma_space_count_joined(shown_again);
        lemma_space_count_joined(shown);
        assert(all_solid(shown));
        if twice == once {
            assert(joined(shown_again) == twice.drop_last());
            assert(joined(shown) == once.drop_last());
        }
    }
}

} // verus!
