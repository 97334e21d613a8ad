use sticky_sentences::sentence::{into_sentences, Sentence, SentenceState};

fn pairs(sentences: &[Sentence]) -> Vec<(usize, &str)> {
    sentences.iter().map(|s| (s.line_number, s.text.as_str())).collect()
}

#[test]
fn empty_input_has_no_sentences() {
    assert_eq!(into_sentences("").len(), 0);
}

#[test]
fn input_without_letters_digits_or_terminators_has_no_sentences() {
    assert_eq!(into_sentences("  \n\t -- ,, ;; \n").len(), 0);
}

#[test]
fn unterminated_text_is_one_sentence() {
    let sentences = into_sentences("\n\n  no end here");
    assert_eq!(pairs(&sentences), vec![(3, "no end here")]);
}

#[test]
fn a_sentence_begins_at_its_first_letter_or_digit() {
    let sentences = into_sentences("\n -- \n 1st. \n\n(Second)!");
    assert_eq!(pairs(&sentences), vec![(3, "-- 1st."), (5, "(Second)!")]);
}

#[test]
fn a_consecutive_terminator_closes_a_sentence_with_the_last_start_line() {
    let sentences = into_sentences("a\nb.\n\n.\nWhat?!");
    assert_eq!(pairs(&sentences), vec![(1, "a b."), (1, "."), (5, "What?"), (5, "!")]);
}

#[test]
fn a_lone_terminator_is_a_sentence_on_line_1() {
    let sentences = into_sentences("\n\n  .");
    assert_eq!(pairs(&sentences), vec![(1, ".")]);
}

#[test]
fn never_more_sentences_than_terminators_and_one() {
    for text in ["", "a", "a.", "a.b", "...", "a?b!c.d", "\n.\n?\nend", "no end, none"] {
        let terminators = text.chars().filter(|c| matches!(c, '.' | '?' | '!')).count();
        assert!(into_sentences(text).len() <= terminators + 1);
    }
}

#[test]
fn line_numbers_begin_at_1_and_never_fall() {
    let sentences = into_sentences("One.\nTwo. Three\n\n.\n\nFour!\n\n");
    let lines: Vec<usize> = sentences.iter().map(|s| s.line_number).collect();
    assert_eq!(lines, vec![1, 2, 2, 6]);
}

#[test]
fn sentence_new_keeps_its_fields() {
    let sentence = Sentence::new(7, "Seven.".to_string());
    assert_eq!(sentence.line_number, 7);
    assert_eq!(sentence.text, "Seven.");
}

#[test]
fn sentence_is_sticky_above_half_glue_words() {
    assert!(Sentence::new(1, "This is a crab.".to_string()).is_sticky());
    assert!(!Sentence::new(1, "The crab.".to_string()).is_sticky());
    assert!(!Sentence::new(1, "Crabs walk sideways.".to_string()).is_sticky());
    assert!(!Sentence::new(1, "".to_string()).is_sticky());
}

#[test]
fn sentence_display_is_line_number_and_quoted_text() {
    assert_eq!(Sentence::new(1, "A crab.".to_string()).display(), "1: `A crab.`");
    assert_eq!(Sentence::new(120, "".to_string()).display(), "120: ``");
}

#[test]
fn sentence_states_differ() {
    assert_ne!(SentenceState::NotInSentence, SentenceState::InSentence);
}
