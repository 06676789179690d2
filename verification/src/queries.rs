//! How a text falls into words, and what the words of a query ask for.

use vstd::prelude::*;
use crate::events::{lemma_word_stop, query_parts, spaced, usable_name, word_stop, words_from};
use crate::text::is_white;

verus! {

/// A text without white space, and with something in it.
pub open spec fn is_word(word: Seq<char>) -> bool {
    word.len() > 0 && forall|i: int| 0 <= i < word.len() ==> !is_white(#[trigger] word[i])
}

proof fn lemma_stop_moved(a: Seq<char>, b: Seq<char>, i: int)
    requires
        0 <= i <= b.len(),
    ensures
        word_stop(a + b, a.len() + i) == a.len() + word_stop(b, i),
    decreases b.len() - i,
{
    if i < b.len() {
        assert((a + b)[a.len() + i] == b[i]);
        if !is_white(b[i]) {
            lemma_stop_moved(a, b, i + 1);
        }
    }
}

proof fn lemma_words_moved(a: Seq<char>, b: Seq<char>, i: int)
    requires
        0 <= i <= b.len(),
    ensures
        words_from(a + b, a.len() + i) == words_from(b, i),
    decreases b.len() - i,
{
    let both = a + b;
    if i < b.len() {
        assert(both[a.len() + i] == b[i]);
        if is_white(b[i]) {
            lemma_words_moved(a, b, i + 1);
        } else {
            lemma_word_stop(b, i);
            lemma_stop_moved(a, b, i);
            let stop = word_stop(b, i);
            assert(both.subrange(a.len() + i, a.len() + stop) =~= b.subrange(i, stop));
            lemma_words_moved(a, b, stop);
        }
    }
}

proof fn lemma_stop_after(word: Seq<char>, text: Seq<char>, i: int)
    requires
        0 <= i <= word.len() <= text.len(),
        forall|x: int| 0 <= x < word.len() ==> #[trigger] text[x] == word[x],
        is_word(word),
        word.len() < text.len() ==> is_white(text[word.len() as int]),
    ensures
        word_stop(text, i) == word.len(),
    decreases word.len() - i,
{
    if i < word.len() {
        assert(text[i] == word[i]);
        lemma_stop_after(word, text, i + 1);
    }
}

/// White space parts words and is no part of them: what starts with it has the words of what
/// comes after, and a word ends where it comes.
pub proof fn law_white_space_parts_words(word: Seq<char>, blank: char, rest: Seq<char>)
    requires
        is_word(word),
        is_white(blank),
    ensures
        words_from(seq![blank] + rest, 0) == words_from(rest, 0),
        words_from(word + seq![blank] + rest, 0) == seq![word] + words_from(rest, 0),
        words_from(word, 0) == seq![word],
{
    let first = seq![blank];
    assert((first + rest)[0] == blank);
    lemma_words_moved(first, rest, 0);
    let text = word + first + rest;
    lemma_stop_after(word, text, 0);
    assert(text[0] == word[0]);
    assert(text.subrange(0, word.len() as int) =~= word);
    assert(text =~= word + (first + rest));
    lemma_words_moved(word, first + rest, 0);
    lemma_stop_after(word, word, 0);
    assert(word.subrange(0, word.len() as int) =~= word);
    assert(words_from(word, word.len() as int) =~= Seq::empty());
    assert(words_from(word, 0) =~= seq![word]);
}

proof fn lemma_spaced_from_the_front(words: Seq<Seq<char>>)
    requires
        words.len() > 1,
    ensures
        spaced(words) == words[0] + " "@ + spaced(words.drop_first()),
    decreases words.len(),
{
    let rest = words.drop_first();
    let start = words.drop_last();
    if words.len() == 2 {
        assert(spaced(start) == words[0]);
        assert(spaced(rest) == words[1]);
    } else {
        lemma_spaced_from_the_front(start);
        assert(start.drop_first() =~= rest.drop_last());
        assert(rest.last() == words.last());
        assert(spaced(words) =~= words[0] + " "@ + spaced(rest));
    }
}

/// Words put together with a space between each two fall into the same words again.
pub proof fn law_spaced_words_fall_apart_again(words: Seq<Seq<char>>)
    requires
        forall|i: int| 0 <= i < words.len() ==> is_word(#[trigger] words[i]),
    ensures
        words_from(spaced(words), 0) == words,
    decreases words.len(),
{
    reveal_strlit(" ");
    if words.len() == 0 {
        assert(words_from(spaced(words), 0) =~= words);
    } else {
        assert(is_word(words[0]));
        let rest = words.drop_first();
        assert forall|i: int| 0 <= i < rest.len() implies is_word(#[trigger] rest[i]) by {
            assert(is_word(words[i + 1]));
        }
        law_white_space_parts_words(words[0], ' ', spaced(rest));
        if words.len() == 1 {
            assert(seq![words[0]] =~= words);
        } else {
            lemma_spaced_from_the_front(words);
            law_spaced_words_fall_apart_again(rest);
            assert(" "@ =~= seq![' ']);
            assert(seq![words[0]] + rest =~= words);
        }
    }
}

/// A query names what its first word says, and asks for what the words after it say, a space
/// between each two. A first word that cannot be a name makes no query.
pub proof fn law_a_query_names_and_asks(name: Seq<char>, blank: char, words: Seq<Seq<char>>)
    requires
        is_word(name),
        is_white(blank),
        words.len() > 0,
        forall|i: int| 0 <= i < words.len() ==> is_word(#[trigger] words[i]),
    ensures
        usable_name(name) ==> query_parts(name + seq![blank] + spaced(words)) == Some(
            (name, Some(spaced(words))),
        ),
        usable_name(name) ==> query_parts(name + seq![blank]) == Some((name, None::<Seq<char>>)),
        !usable_name(name) ==> query_parts(name + seq![blank] + spaced(words)) is None,
{
    law_white_space_parts_words(name, blank, spaced(words));
    law_spaced_words_fall_apart_again(words);
    let all = words_from(name + seq![blank] + spaced(words), 0);
    assert(all =~= seq![name] + words);
    assert(all[0] == name);
    assert(all.drop_first() =~= words);
    assert(spaced(words).len() > 0) by {
        if words.len() > 1 {
            lemma_spaced_from_the_front(words);
        }
        assert(is_word(words[0]));
    }
    law_white_space_parts_words(name, blank, Seq::empty());
    let alone = name + seq![blank];
    assert(alone + Seq::<char>::empty() =~= alone);
    assert(words_from(alone, 0) =~= seq![name]);
    assert(words_from(alone, 0).drop_first() =~= Seq::empty());
}

} // verus!
