use sticky_sentences::words::{join_words, normalize_sentence, split_words};

fn strings(words: &[&str]) -> Vec<String> {
    words.iter().map(|w| w.to_string()).collect()
}

#[test]
fn split_words_gives_the_runs_between_whitespace() {
    assert_eq!(split_words("a b"), strings(&["a", "b"]));
    assert_eq!(split_words("  one\ttwo\n\nthree  "), strings(&["one", "two", "three"]));
    assert_eq!(split_words("It's a crab."), strings(&["It's", "a", "crab."]));
}

#[test]
fn split_words_of_nothing_but_whitespace_is_empty() {
    assert_eq!(split_words(""), Vec::<String>::new());
    assert_eq!(split_words(" \t\n  \r\n"), Vec::<String>::new());
}

#[test]
fn split_words_of_one_word_is_that_word() {
    assert_eq!(split_words("word"), strings(&["word"]));
    assert_eq!(split_words("word "), strings(&["word"]));
    assert_eq!(split_words(" word"), strings(&["word"]));
}

#[test]
fn split_words_knows_unicode_whitespace() {
    assert_eq!(split_words("a\u{a0}b\u{3000}c"), strings(&["a", "b", "c"]));
}

#[test]
fn split_words_of_two_texts_that_meet_at_whitespace() {
    let first = " alpha beta ";
    let second = "gamma\ndelta";
    let mut both = split_words(first);
    both.extend(split_words(second));
    assert_eq!(split_words(&format!("{}{}", first, second)), both);
}

#[test]
fn join_words_puts_one_space_between_words() {
    assert_eq!(join_words(&strings(&[])), "");
    assert_eq!(join_words(&strings(&["a"])), "a");
    assert_eq!(join_words(&strings(&["a", "b"])), "a b");
    assert_eq!(join_words(&strings(&["a", "b", "c"])), "a b c");
}

#[test]
fn normalize_sentence_of_whitespace_is_empty() {
    assert_eq!(normalize_sentence(""), "");
    assert_eq!(normalize_sentence("   "), "");
    assert_eq!(normalize_sentence("\n\t \n"), "");
}

#[test]
fn normalize_sentence_removes_whitespace_at_both_ends() {
    assert_eq!(normalize_sentence("  a  "), "a");
    assert_eq!(normalize_sentence("\na b\n"), "a b");
}

#[test]
fn normalize_sentence_keeps_normal_text() {
    assert_eq!(normalize_sentence("The 3rd sentence?"), "The 3rd sentence?");
    assert_eq!(normalize_sentence(&normalize_sentence(" a \n b ")), "a b");
}
