use sticky_sentences::glue::{clean_word, glue_words_percentage};
use sticky_sentences::sentence::into_sentences;
use sticky_sentences::words::normalize_sentence;

#[test]
fn test_clean_word() {
    assert_eq!(clean_word("a"), "a");
    assert_eq!(clean_word("A"), "a");
    assert_eq!(clean_word("Word."), "word");
    assert_eq!(clean_word("HelLo"), "hello");
    assert_eq!(clean_word("!!!"), "");
    assert_eq!(clean_word(""), "");
    assert_eq!(clean_word("100"), "");
}

#[test]
fn test_glue_word_percentage() {
    assert_eq!(glue_words_percentage("a"), 100);
    assert_eq!(glue_words_percentage("crab"), 0);
    assert_eq!(glue_words_percentage("What is this?"), 100);
    assert_eq!(glue_words_percentage("It's a crab"), 33);
    assert_eq!(glue_words_percentage("A some crab"), 67);
}

#[test]
fn test_normalize_sentence() {
    assert_eq!(normalize_sentence("a"), "a");
    assert_eq!(normalize_sentence("a b"), "a b");
    assert_eq!(normalize_sentence("a \n b"), "a b");
    assert_eq!(normalize_sentence("    a\nb \tc\n\n  \n  d "), "a b c d");
}

#[test]
fn test_into_sentences_ending_punctuation() {
    let input: &str = r#"The first sentence.
                             The second
                             sentence! The
                             3rd
                             sentence?"#;

    let sentences = into_sentences(input);
    assert_eq!(sentences.len(), 3);
    assert_eq!(sentences[0].line_number, 1);
    assert_eq!(sentences[0].text, "The first sentence.");
    assert_eq!(sentences[1].line_number, 2);
    assert_eq!(sentences[1].text, "The second sentence!");
    assert_eq!(sentences[2].line_number, 3);
    assert_eq!(sentences[2].text, "The 3rd sentence?");
}

#[test]
fn test_into_sentences_no_ending_punctuation() {
    let input = r#"The first sentence.
                             The second sentence"#;

    let sentences = into_sentences(input);
    assert_eq!(sentences.len(), 2);
    assert_eq!(sentences[0].line_number, 1);
    assert_eq!(sentences[0].text, "The first sentence.");
    assert_eq!(sentences[1].line_number, 2);
    assert_eq!(sentences[1].text, "The second sentence");
}
