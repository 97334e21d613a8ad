//! Words and whitespace: splitting a text into its words and joining words
//! back into a text with single spaces.

use crate::chars::char_is_whitespace;
use vstd::prelude::*;
use vstd::string::StringExecFns;

verus! {

/// Whether `s` ends with a character of a word, so that a word is still open
/// at its end.
pub open spec fn ends_in_word(s: Seq<char>) -> bool {
    s.len() > 0 && !char_is_whitespace(s.last())
}

/// The words of `s`: its maximal runs of characters that are not whitespace,
/// from left to right.
///
/// Read from the end of the text: a whitespace character adds nothing; any
/// other character lengthens the last word if it follows a word character,
/// and begins a new word if it does not.
pub open spec fn words(s: Seq<char>) -> Seq<Seq<char>>
    decreases s.len(),
{
    if s.len() == 0 {
        Seq::empty()
    } else if char_is_whitespace(s.last()) {
        words(s.drop_last())
    } else if ends_in_word(s.drop_last()) {
        let before = words(s.drop_last());
        before.drop_last().push(before.last().push(s.last()))
    } else {
        words(s.drop_last()).push(seq![s.last()])
    }
}

/// The words of `ws` written one after the other with one space between
/// neighbours.
pub open spec fn join(ws: Seq<Seq<char>>) -> Seq<char>
    decreases ws.len(),
{
    if ws.len() == 0 {
        Seq::empty()
    } else if ws.len() == 1 {
        ws[0]
    } else {
        join(ws.drop_last()) + seq![' '] + ws.last()
    }
}

/// A text with every run of whitespace between two words replaced by one
/// space, and the whitespace before the first and after the last word removed.
pub open spec fn normalize(s: Seq<char>) -> Seq<char> {
    join(words(s))
}

/// Whether no character of `s` is whitespace.
pub open spec fn no_whitespace(s: Seq<char>) -> bool {
    forall|i: int| 0 <= i < s.len() ==> !char_is_whitespace(#[trigger] s[i])
}

/// Whether every character of `s` is whitespace.
pub open spec fn only_whitespace(s: Seq<char>) -> bool {
    forall|i: int| 0 <= i < s.len() ==> char_is_whitespace(#[trigger] s[i])
}

/// A text has an open word at its end exactly if it has a last word, and
/// every word is non-empty and free of whitespace.
pub proof fn lemma_words_shape(s: Seq<char>)
    ensures
        ends_in_word(s) ==> words(s).len() > 0,
        forall|k: int|
            0 <= k < words(s).len() ==> (#[trigger] words(s)[k]).len() > 0 && no_whitespace(
                words(s)[k],
            ),
    decreases s.len(),
{
    if s.len() > 0 {
        lemma_words_shape(s.drop_last());
    }
}

/// Text that holds whitespace only has no words.
pub proof fn lemma_words_of_whitespace(s: Seq<char>)
    requires
        only_whitespace(s),
    ensures
        words(s) == Seq::<Seq<char>>::empty(),
    decreases s.len(),
{
    if s.len() > 0 {
        lemma_words_of_whitespace(s.drop_last());
    }
}

/// Text that is not empty and holds no whitespace is one word.
pub proof fn lemma_words_of_word(s: Seq<char>)
    requires
        s.len() > 0,
        no_whitespace(s),
    ensures
        words(s) == seq![s],
    decreases s.len(),
{
    let init = s.drop_last();
    assert(!char_is_whitespace(s[s.len() - 1]));
    if init.len() > 0 {
        assert forall|i: int| 0 <= i < init.len() implies !char_is_whitespace(
            #[trigger] init[i],
        ) by {
            assert(init[i] == s[i]);
        }
        lemma_words_of_word(init);
        assert(!char_is_whitespace(init[init.len() - 1]));
        assert(init.push(s.last()) =~= s);
        assert(seq![init].last() == init);
        assert(seq![init].drop_last().push(s) =~= seq![s]);
    } else {
        assert(seq![s.last()] =~= s);
        assert(words(init).push(s) =~= seq![s]);
    }
}

/// Where no word runs across the place at which two texts meet, the words of
/// the whole are the words of the first text followed by those of the second.
pub proof fn lemma_words_concat(a: Seq<char>, b: Seq<char>)
    requires
        !ends_in_word(a) || b.len() == 0 || char_is_whitespace(b.first()),
    ensures
        words(a + b) == words(a) + words(b),
    decreases b.len(),
{
    if b.len() == 0 {
        assert(a + b =~= a);
        assert(words(a) + words(b) =~= words(a));
    } else {
        let whole = a + b;
        let init = b.drop_last();
        assert(whole.drop_last() =~= a + init);
        assert(whole.last() == b.last());
        if init.len() == 0 {
            assert(a + init =~= a);
            assert(b.first() == b.last());
            lemma_words_concat(a, init);
            if !char_is_whitespace(b.last()) {
                assert(words(b) =~= seq![seq![b.last()]]);
                assert(words(whole) =~= words(a) + words(b));
            }
        } else {
            assert(init.first() == b.first());
            lemma_words_concat(a, init);
            assert((a + init).last() == init.last());
            if !char_is_whitespace(b.last()) {
                if ends_in_word(init) {
                    lemma_words_shape(init);
                    let wi = words(init);
                    assert((words(a) + wi).drop_last() =~= words(a) + wi.drop_last());
                    assert(words(whole) =~= words(a) + words(b));
                } else {
                    assert(words(whole) =~= words(a) + words(b));
                }
            }
        }
    }
}

/// Text with a character that is not whitespace has a word, and its normal
/// form is not empty.
pub proof fn lemma_normalize_not_empty(s: Seq<char>, i: int)
    requires
        0 <= i < s.len(),
        !char_is_whitespace(s[i]),
    ensures
        words(s).len() > 0,
        normalize(s).len() > 0,
    decreases s.len(),
{
    lemma_words_shape(s);
    if i < s.len() - 1 {
        lemma_normalize_not_empty(s.drop_last(), i);
    }
    let ws = words(s);
    assert(ws.last().len() > 0);
}

/// Splits a text into its words.
pub fn split_words(text: &str) -> (result: Vec<String>)
    ensures
        result.deep_view() == words(text@),
{
    let mut result: Vec<String> = Vec::new();
    let mut current = String::new();
    let mut in_word = false;
    for c in it: text.chars()
        invariant
            it.seq() == text@,
            in_word == ends_in_word(text@.take(it.index() as int)),
            in_word ==> result.deep_view().push(current@) == words(text@.take(it.index() as int)),
            !in_word ==> result.deep_view() == words(text@.take(it.index() as int))
                && current@.len() == 0,
    {
        let ghost before = text@.take(it.index() as int);
        let ghost after = text@.take(it.index() + 1);
        let ghost done = result.deep_view();
        let ghost open = current@;
        proof {
            assert(after.drop_last() =~= before);
            assert(after.last() == c);
        }
        if c.is_whitespace() {
            if in_word {
                result.push(current);
                current = String::new();
                in_word = false;
                assert(result.deep_view() =~= done.push(open));
            }
        } else {
            current.push(c);
            in_word = true;
            proof {
                if ends_in_word(before) {
                    assert(done.push(open).drop_last() =~= done);
                } else {
                    assert(open.push(c) =~= seq![c]);
                }
            }
        }
    }
    assert(text@.take(text@.len() as int) =~= text@);
    let ghost done = result.deep_view();
    if in_word {
        result.push(current);
        assert(result.deep_view() =~= done.push(current@));
    }
    result
}

/// Writes the words one after the other, with one space between neighbours.
pub fn join_words(words: &Vec<String>) -> (text: String)
    ensures
        text@ == join(words.deep_view()),
{
    let mut text = String::new();
    for i in 0..words.len()
        invariant
            text@ == join(words.deep_view().take(i as int)),
    {
        let ghost joined = text@;
        if i > 0 {
            text.push(' ');
        }
        text.append(words[i].as_str());
        proof {
            let upto = words.deep_view().take(i + 1);
            assert(upto.drop_last() =~= words.deep_view().take(i as int));
            assert(upto.last() == words[i as int]@);
            if i == 0 {
                assert(text@ =~= upto[0]);
            } else {
                assert(text@ =~= joined + seq![' '] + upto.last());
            }
        }
    }
    assert(words.deep_view().take(words.len() as int) =~= words.deep_view());
    text
}

/// Replaces every run of whitespace between two words by one space and
/// removes the whitespace before the first and after the last word.
pub fn normalize_sentence(text: &str) -> (normal: String)
    ensures
        normal@ == normalize(text@),
{
    let words = split_words(text);
    join_words(&words)
}

} // verus!
