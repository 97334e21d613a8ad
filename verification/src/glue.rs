//! Glue words and the share of them in a sentence.

use crate::chars::{char_is_alphabetic, char_lowercase, lowercase};
use crate::words::{split_words, words};
use vstd::prelude::*;

verus! {

/// The glue words: short, frequent words that carry little of a sentence's
/// meaning.
pub open spec fn glue_words() -> Seq<Seq<char>> {
    seq![
        "a"@,
        "an"@,
        "and"@,
        "asked"@,
        "be"@,
        "by"@,
        "every"@,
        "for"@,
        "from"@,
        "get"@,
        "go"@,
        "have"@,
        "if"@,
        "in"@,
        "is"@,
        "it"@,
        "just"@,
        "like"@,
        "make"@,
        "much"@,
        "new"@,
        "of"@,
        "on"@,
        "said"@,
        "should"@,
        "some"@,
        "that"@,
        "the"@,
        "there"@,
        "think"@,
        "this"@,
        "to"@,
        "was"@,
        "what"@,
        "will"@,
        "with"@,
    ]
}

/// Whether `w` is one of the glue words, letter for letter.
pub open spec fn is_glue(w: Seq<char>) -> bool {
    glue_words().contains(w)
}

/// The glue words as strings, in the order of `glue_words`.
pub fn glue_table() -> (table: Vec<String>)
    ensures
        table.deep_view() == glue_words(),
{
    let mut table: Vec<String> = Vec::new();
    table.push("a".to_owned());
    table.push("an".to_owned());
    table.push("and".to_owned());
    table.push("asked".to_owned());
    table.push("be".to_owned());
    table.push("by".to_owned());
    table.push("every".to_owned());
    table.push("for".to_owned());
    table.push("from".to_owned());
    table.push("get".to_owned());
    table.push("go".to_owned());
    table.push("have".to_owned());
    table.push("if".to_owned());
    table.push("in".to_owned());
    table.push("is".to_owned());
    table.push("it".to_owned());
    table.push("just".to_owned());
    table.push("like".to_owned());
    table.push("make".to_owned());
    table.push("much".to_owned());
    table.push("new".to_owned());
    table.push("of".to_owned());
    table.push("on".to_owned());
    table.push("said".to_owned());
    table.push("should".to_owned());
    table.push("some".to_owned());
    table.push("that".to_owned());
    table.push("the".to_owned());
    table.push("there".to_owned());
    table.push("think".to_owned());
    table.push("this".to_owned());
    table.push("to".to_owned());
    table.push("was".to_owned());
    table.push("what".to_owned());
    table.push("will".to_owned());
    table.push("with".to_owned());
    assert(table.deep_view() =~= glue_words());
    table
}

/// Whether the word is one of the glue words of the table.
pub fn is_glue_word(table: &Vec<String>, word: &String) -> (found: bool)
    ensures
        found == table.deep_view().contains(word@),
{
    for i in 0..table.len()
        invariant
            !table.deep_view().take(i as int).contains(word@),
    {
        if table[i] == *word {
            assert(table.deep_view()[i as int] == word@);
            return true;
        }
        assert(table.deep_view().take(i + 1) =~= table.deep_view().take(i as int).push(table[i as int]@));
    }
    assert(table.deep_view().take(table.len() as int) =~= table.deep_view());
    false
}

/// A word reduced to its letters, each in lowercase: the lowercase mappings
/// of its alphabetic characters, in their order. Digits, punctuation and all
/// other characters are left out.
pub open spec fn clean(s: Seq<char>) -> Seq<char> {
    s.filter(|c: char| char_is_alphabetic(c)).map_values(|c: char| char_lowercase(c)).flatten()
}

/// What one more character at the end of a word adds to the cleaned word: its
/// lowercase mapping if it is alphabetic, and nothing if it is not.
pub proof fn lemma_clean_push(s: Seq<char>, c: char)
    ensures
        clean(s.push(c)) == if char_is_alphabetic(c) {
            clean(s) + char_lowercase(c)
        } else {
            clean(s)
        },
{
    let alphabetic = |c: char| char_is_alphabetic(c);
    let lower = |c: char| char_lowercase(c);
    s.lemma_filter_push(c, alphabetic);
    if char_is_alphabetic(c) {
        let letters = s.filter(alphabetic);
        assert(letters.push(c).map_values(lower) =~= letters.map_values(lower).push(
            char_lowercase(c),
        ));
        letters.map_values(lower).lemma_flatten_push(char_lowercase(c));
    }
}

/// A word without alphabetic characters is cleaned to the empty word.
pub proof fn lemma_clean_without_letters(s: Seq<char>)
    requires
        forall|i: int| 0 <= i < s.len() ==> !char_is_alphabetic(#[trigger] s[i]),
    ensures
        clean(s) == Seq::<char>::empty(),
    decreases s.len(),
{
    if s.len() == 0 {
        reveal(Seq::filter);
        assert(clean(s) =~= Seq::<char>::empty());
    } else {
        let init = s.drop_last();
        assert forall|i: int| 0 <= i < init.len() implies !char_is_alphabetic(
            #[trigger] init[i],
        ) by {
            assert(init[i] == s[i]);
        }
        lemma_clean_without_letters(init);
        lemma_clean_push(init, s.last());
        assert(init.push(s.last()) =~= s);
        assert(!char_is_alphabetic(s[s.len() - 1]));
    }
}

/// Appends the characters to the string, in their order.
fn push_all(text: &mut String, chars: &Vec<char>)
    ensures
        final(text)@ == old(text)@ + chars@,
{
    for i in 0..chars.len()
        invariant
            text@ == old(text)@ + chars@.take(i as int),
    {
        text.push(chars[i]);
        assert(chars@.take(i + 1) =~= chars@.take(i as int).push(chars[i as int]));
    }
    assert(chars@.take(chars.len() as int) =~= chars@);
}

/// Makes the word lowercase and removes everything that is not a letter.
pub fn clean_word(word: &str) -> (cleaned: String)
    ensures
        cleaned@ == clean(word@),
{
    let mut cleaned = String::new();
    proof {
        lemma_clean_without_letters(Seq::<char>::empty());
    }
    for c in it: word.chars()
        invariant
            it.seq() == word@,
            cleaned@ == clean(word@.take(it.index() as int)),
    {
        proof {
            lemma_clean_push(word@.take(it.index() as int), c);
            assert(word@.take(it.index() + 1) =~= word@.take(it.index() as int).push(c));
        }
        if c.is_alphabetic() {
            let lower = lowercase(c);
            push_all(&mut cleaned, &lower);
        }
    }
    assert(word@.take(word@.len() as int) =~= word@);
    cleaned
}

/// How many of the words are glue words once they are cleaned.
pub open spec fn glue_count(ws: Seq<Seq<char>>) -> nat {
    ws.filter(|w: Seq<char>| is_glue(clean(w))).len()
}

/// `part` as a percentage of `whole`, rounded to the nearest whole number,
/// with a half rounded up; 0 where `whole` is 0.
pub open spec fn rounded_percentage(part: nat, whole: nat) -> int {
    if whole == 0 {
        0
    } else {
        ((200 * part + whole) / (2 * whole)) as int
    }
}

/// The percentage of glue words among the words of a sentence, rounded to the
/// nearest whole number; 0 for a sentence without words.
pub open spec fn glue_ratio(s: Seq<char>) -> int {
    rounded_percentage(glue_count(words(s)), words(s).len())
}

/// The rounded percentage is the whole number nearest to the exact
/// percentage `100 * part / whole`: it lies less than a half above it and at
/// most a half below it.
pub proof fn lemma_rounded_percentage_is_nearest(part: nat, whole: nat)
    requires
        whole > 0,
    ensures
        2 * whole * rounded_percentage(part, whole) - whole <= 200 * part,
        200 * part < 2 * whole * rounded_percentage(part, whole) + whole,
{
    let n = (200 * part + whole) as int;
    let d = (2 * whole) as int;
    assert(d * (n / d) <= n < d * (n / d) + d) by (nonlinear_arith)
        requires
            d > 0,
            n >= 0,
    ;
}

/// A part of a whole is between 0 and 100 percent of it.
pub proof fn lemma_rounded_percentage_bounds(part: nat, whole: nat)
    requires
        part <= whole,
    ensures
        0 <= rounded_percentage(part, whole) <= 100,
{
    if whole > 0 {
        let n = (200 * part + whole) as int;
        let d = (2 * whole) as int;
        assert(0 <= n / d <= 100) by (nonlinear_arith)
            requires
                d > 0,
                0 <= n < 101 * d,
        ;
    }
}

/// The share of glue words in any text is between 0 and 100 percent, and it
/// is 0 for a text without words.
pub proof fn lemma_glue_ratio_bounds(s: Seq<char>)
    ensures
        0 <= glue_ratio(s) <= 100,
        words(s).len() == 0 ==> glue_ratio(s) == 0,
{
    words(s).lemma_filter_len(|w: Seq<char>| is_glue(clean(w)));
    lemma_rounded_percentage_bounds(glue_count(words(s)), words(s).len());
}

/// `part` as a percentage of `whole`, rounded to the nearest whole number.
pub fn percentage_of(part: usize, whole: usize) -> (percentage: i32)
    requires
        part <= whole,
    ensures
        percentage == rounded_percentage(part as nat, whole as nat),
        0 <= percentage <= 100,
        whole > 0 ==> 2 * whole * percentage - whole <= 200 * part < 2 * whole * percentage
            + whole,
{
    proof {
        lemma_rounded_percentage_bounds(part as nat, whole as nat);
        if whole > 0 {
            lemma_rounded_percentage_is_nearest(part as nat, whole as nat);
        }
    }
    if whole == 0 {
        0
    } else {
        let twice: u128 = 200 * (part as u128) + (whole as u128);
        (twice / (2 * (whole as u128))) as i32
    }
}

/// Returns the percentage of glue words in the sentence.
pub fn glue_words_percentage(sentence: &str) -> (percentage: i32)
    ensures
        percentage == glue_ratio(sentence@),
        0 <= percentage <= 100,
{
    let words = split_words(sentence);
    let table = glue_table();
    let ghost glue = |w: Seq<char>| is_glue(clean(w));
    let mut count_glue_words: usize = 0;
    proof {
        reveal(Seq::filter);
    }
    for i in 0..words.len()
        invariant
            table.deep_view() == glue_words(),
            glue == (|w: Seq<char>| is_glue(clean(w))),
            count_glue_words == words.deep_view().take(i as int).filter(glue).len(),
            count_glue_words <= i,
    {
        let cleaned = clean_word(words[i].as_str());
        if is_glue_word(&table, &cleaned) {
            count_glue_words += 1;
        }
        proof {
            let seen = words.deep_view().take(i as int);
            seen.lemma_filter_push(words[i as int]@, glue);
            assert(words.deep_view().take(i + 1) =~= seen.push(words[i as int]@));
        }
    }
    assert(words.deep_view().take(words.len() as int) =~= words.deep_view());
    percentage_of(count_glue_words, words.len())
}

} // verus!
