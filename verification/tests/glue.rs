use sticky_sentences::glue::{
    clean_word, glue_table, glue_words_percentage, is_glue_word, percentage_of,
};

#[test]
fn clean_word_keeps_letters_only() {
    assert_eq!(clean_word("It's"), "its");
    assert_eq!(clean_word("a1b2c3"), "abc");
    assert_eq!(clean_word("(this)"), "this");
    assert_eq!(clean_word("..."), "");
}

#[test]
fn clean_word_lowers_every_letter() {
    assert_eq!(clean_word("THE"), "the");
    assert_eq!(clean_word("\u{c9}t\u{c9}"), "\u{e9}t\u{e9}");
}

#[test]
fn clean_word_writes_out_a_lowercase_mapping_of_two_characters() {
    // The lowercase of capital I with dot above is an i and a combining dot.
    assert_eq!(clean_word("\u{130}"), "i\u{307}");
}

#[test]
fn glue_table_holds_the_thirty_six_glue_words() {
    let table = glue_table();
    assert_eq!(table.len(), 36);
    assert_eq!(table[0], "a");
    assert_eq!(table[35], "with");
    for word in [
        "a", "an", "and", "asked", "be", "by", "every", "for", "from", "get", "go", "have", "if",
        "in", "is", "it", "just", "like", "make", "much", "new", "of", "on", "said", "should",
        "some", "that", "the", "there", "think", "this", "to", "was", "what", "will", "with",
    ] {
        assert!(table.contains(&word.to_string()));
    }
}

#[test]
fn is_glue_word_matches_letter_for_letter() {
    let table = glue_table();
    assert!(is_glue_word(&table, &"the".to_string()));
    assert!(is_glue_word(&table, &"with".to_string()));
    assert!(!is_glue_word(&table, &"The".to_string()));
    assert!(!is_glue_word(&table, &"its".to_string()));
    assert!(!is_glue_word(&table, &"".to_string()));
    assert!(!is_glue_word(&table, &"crab".to_string()));
}

#[test]
fn percentage_of_rounds_to_the_nearest_whole_number() {
    assert_eq!(percentage_of(0, 0), 0);
    assert_eq!(percentage_of(0, 5), 0);
    assert_eq!(percentage_of(5, 5), 100);
    assert_eq!(percentage_of(1, 3), 33);
    assert_eq!(percentage_of(2, 3), 67);
    assert_eq!(percentage_of(1, 2), 50);
    assert_eq!(percentage_of(1, 6), 17);
    assert_eq!(percentage_of(1, 7), 14);
}

#[test]
fn percentage_of_rounds_a_half_up() {
    assert_eq!(percentage_of(1, 8), 13);
    assert_eq!(percentage_of(3, 8), 38);
    assert_eq!(percentage_of(1, 200), 1);
    assert_eq!(percentage_of(1, 201), 0);
}

#[test]
fn percentage_of_large_counts() {
    assert_eq!(percentage_of(usize::MAX, usize::MAX), 100);
    assert_eq!(percentage_of(usize::MAX / 2, usize::MAX), 50);
}

#[test]
fn glue_words_percentage_of_no_words_is_zero() {
    assert_eq!(glue_words_percentage(""), 0);
    assert_eq!(glue_words_percentage("  \n "), 0);
}

#[test]
fn glue_words_percentage_stays_between_0_and_100() {
    for text in ["", "a", "a a a", "crab crab", "the crab is in", "!!! ... ???", "It's the 3rd"] {
        let percentage = glue_words_percentage(text);
        assert!(0 <= percentage && percentage <= 100);
    }
}

#[test]
fn glue_words_percentage_counts_cleaned_words() {
    assert_eq!(glue_words_percentage("THE. (and) crab"), 67);
    assert_eq!(glue_words_percentage("It's"), 0);
    assert_eq!(glue_words_percentage("a b c d e f g h"), 13);
    assert_eq!(glue_words_percentage("the crab"), 50);
}
